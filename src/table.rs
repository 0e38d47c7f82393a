//! Deciding whether a block of text reads like a table.
use vstd::prelude::*;
use crate::text::{
    chars_of, is_whitespace, is_ws, lines_chars, lines_of, trim, trim_chars, views,
};

verus! {

/// A column-gap character: space or tab.
pub open spec fn is_gap(c: char) -> bool {
    c == ' ' || c == '\t'
}

/// The number of runs of two or more gap characters in `s`.
pub open spec fn gap_runs(s: Seq<char>) -> nat
    decreases s.len(),
{
    if s.len() < 2 {
        0
    } else {
        let n = s.len() as int;
        gap_runs(s.drop_last()) + if is_gap(s[n - 1]) && is_gap(s[n - 2]) && (n < 3 || !is_gap(
            s[n - 3],
        )) {
            1nat
        } else {
            0nat
        }
    }
}

/// The number of whitespace-separated tokens in `s`.
pub open spec fn token_count(s: Seq<char>) -> nat
    decreases s.len(),
{
    if s.len() == 0 {
        0
    } else {
        let n = s.len() as int;
        token_count(s.drop_last()) + if !is_ws(s[n - 1]) && (n == 1 || is_ws(s[n - 2])) {
            1nat
        } else {
            0nat
        }
    }
}

/// The trimmed lines of `ls` that are not empty after trimming, in order.
pub open spec fn nonempty_trimmed(ls: Seq<Seq<char>>) -> Seq<Seq<char>>
    decreases ls.len(),
{
    if ls.len() == 0 {
        Seq::empty()
    } else {
        let r = nonempty_trimmed(ls.drop_last());
        let t = trim(ls.last());
        if t.len() > 0 {
            r.push(t)
        } else {
            r
        }
    }
}

/// How many of `ls` have at least two column gaps.
pub open spec fn gapped_count(ls: Seq<Seq<char>>) -> nat
    decreases ls.len(),
{
    if ls.len() == 0 {
        0
    } else {
        gapped_count(ls.drop_last()) + if gap_runs(ls.last()) >= 2 {
            1nat
        } else {
            0nat
        }
    }
}

/// Two neighbouring rows of a table: both have three tokens or more, and
/// their counts differ by two at most.
pub open spec fn rows_agree(a: nat, b: nat) -> bool {
    a >= 3 && b >= 3 && a <= b + 2 && b <= a + 2
}

/// The length of the run of agreeing rows that ends at line `i`.
pub open spec fn run_ending(ls: Seq<Seq<char>>, i: int) -> nat
    decreases i,
{
    if i <= 0 {
        1
    } else if rows_agree(token_count(ls[i - 1]), token_count(ls[i])) {
        run_ending(ls, i - 1) + 1
    } else {
        1
    }
}

/// The table heuristic on the non-empty trimmed lines `ls`: at least three
/// lines, and either at least 40% of them have two column gaps, or six
/// consecutive lines agree as rows.
pub open spec fn table_like_lines(ls: Seq<Seq<char>>) -> bool {
    &&& ls.len() >= 3
    &&& {
        ||| 5 * gapped_count(ls) >= 2 * ls.len()
        ||| exists|i: int| 0 <= i < ls.len() && #[trigger] run_ending(ls, i) >= 6
    }
}

/// The table heuristic on a text.
pub open spec fn table_like(t: Seq<char>) -> bool {
    table_like_lines(nonempty_trimmed(lines_of(t)))
}

/// Computes `gap_runs(s@)`.
pub fn count_gap_runs(s: &Vec<char>) -> (r: usize)
    ensures
        r == gap_runs(s@),
{
    let mut groups: usize = 0;
    let mut i: usize = 0;
    while i < s.len()
        invariant
            i <= s.len(),
            groups == gap_runs(s@.subrange(0, i as int)),
            groups <= i,
        decreases s.len() - i,
    {
        let ghost pre = s@.subrange(0, i as int + 1);
        assert(pre.drop_last() =~= s@.subrange(0, i as int));
        if i >= 1 && (s[i] == ' ' || s[i] == '\t') && (s[i - 1] == ' ' || s[i - 1] == '\t') && (i
            < 2 || !(s[i - 2] == ' ' || s[i - 2] == '\t')) {
            groups = groups + 1;
        }
        i = i + 1;
    }
    assert(s@.subrange(0, s.len() as int) =~= s@);
    groups
}

/// Computes `token_count(s@)`.
pub fn count_tokens(s: &Vec<char>) -> (r: usize)
    ensures
        r == token_count(s@),
{
    let mut count: usize = 0;
    let mut i: usize = 0;
    while i < s.len()
        invariant
            i <= s.len(),
            count == token_count(s@.subrange(0, i as int)),
            count <= i,
        decreases s.len() - i,
    {
        let ghost pre = s@.subrange(0, i as int + 1);
        assert(pre.drop_last() =~= s@.subrange(0, i as int));
        if !is_whitespace(s[i]) && (i == 0 || is_whitespace(s[i - 1])) {
            count = count + 1;
        }
        i = i + 1;
    }
    assert(s@.subrange(0, s.len() as int) =~= s@);
    count
}

/// Computes `nonempty_trimmed(views(lines@))`.
pub fn nonempty_trimmed_lines(lines: &Vec<Vec<char>>) -> (r: Vec<Vec<char>>)
    ensures
        views(r@) == nonempty_trimmed(views(lines@)),
{
    let mut r: Vec<Vec<char>> = Vec::new();
    let mut i: usize = 0;
    while i < lines.len()
        invariant
            i <= lines.len(),
            views(r@) == nonempty_trimmed(views(lines@).subrange(0, i as int)),
        decreases lines.len() - i,
    {
        let ghost pre = views(lines@).subrange(0, i as int + 1);
        assert(pre.drop_last() =~= views(lines@).subrange(0, i as int));
        let t = trim_chars(&lines[i]);
        if t.len() > 0 {
            let ghost old_r = r@;
            r.push(t);
            assert(views(r@) =~= views(old_r).push(t@));
        }
        i = i + 1;
    }
    assert(views(lines@).subrange(0, lines.len() as int) =~= views(lines@));
    r
}

/// Heuristic for text whose lines form a table.
///
/// It needs at least three non-empty lines. It then accepts when at least 40%
/// of those lines hold two or more runs of two or more spaces or tabs, or
/// when six consecutive lines each hold three or more whitespace-separated
/// tokens and neighbouring lines' token counts differ by at most two (tables
/// whose column gaps have collapsed to single spaces).
pub fn looks_like_table(text: &str) -> (r: bool)
    ensures
        r == table_like(text@),
{
    let chars = chars_of(text);
    let all_lines = lines_chars(&chars);
    let ls = nonempty_trimmed_lines(&all_lines);
    let ghost g = views(ls@);
    let n = ls.len();
    if n < 3 {
        return false;
    }
    let mut gapped: usize = 0;
    let mut i: usize = 0;
    while i < n
        invariant
            n == ls.len(),
            g == views(ls@),
            i <= n,
            gapped == gapped_count(g.subrange(0, i as int)),
            gapped <= i,
        decreases n - i,
    {
        assert(g.subrange(0, i as int + 1).drop_last() =~= g.subrange(0, i as int));
        if count_gap_runs(&ls[i]) >= 2 {
            gapped = gapped + 1;
        }
        i = i + 1;
    }
    assert(g.subrange(0, n as int) =~= g);
    if gapped <= n && (gapped as u128) * 5 >= (n as u128) * 2 {
        return true;
    }
    let mut best_run: usize = 1;
    let mut current_run: usize = 1;
    let mut prev = count_tokens(&ls[0]);
    let mut i: usize = 1;
    while i < n
        invariant
            n == ls.len(),
            g == views(ls@),
            1 <= i <= n,
            prev == token_count(g[i - 1]),
            current_run == run_ending(g, i - 1),
            current_run <= i,
            best_run <= i,
            best_run >= 6 <==> exists|j: int| 0 <= j < i && #[trigger] run_ending(g, j) >= 6,
        decreases n - i,
    {
        let curr = count_tokens(&ls[i]);
        if prev >= 3 && curr >= 3 && (if prev >= curr {
            prev - curr <= 2
        } else {
            curr - prev <= 2
        }) {
            current_run = current_run + 1;
            if current_run > best_run {
                best_run = current_run;
            }
        } else {
            current_run = 1;
        }
        assert(current_run == run_ending(g, i as int));
        prev = curr;
        i = i + 1;
    }
    best_run >= 6
}

} // verus!
