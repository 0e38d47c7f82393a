//! Finding the lines that repeat at the top or bottom of most pages, and
//! removing them.
use vstd::prelude::*;
use crate::fmt::{join, join_chars};
use crate::text::{
    byte_size, chars_of, copy_chars, lines_chars, lines_of, same_chars, string_of, trim, trim_chars,
    utf8_size, views,
};

verus! {

/// A line that can count as a header or footer: not empty once trimmed,
/// and under 200 bytes.
pub open spec fn candidate(l: Seq<char>) -> bool {
    trim(l).len() > 0 && utf8_size(trim(l)) < 200
}

/// `x` is the trimmed form of a candidate line among `ls`.
pub open spec fn seen_in(ls: Seq<Seq<char>>, x: Seq<char>) -> bool
    decreases ls.len(),
{
    ls.len() > 0 && (seen_in(ls.drop_last(), x) || (candidate(ls.last()) && trim(ls.last()) == x))
}

/// The first three lines of a text (fewer where it has fewer).
pub open spec fn first_lines(text: Seq<char>) -> Seq<Seq<char>> {
    let ls = lines_of(text);
    ls.subrange(0, if ls.len() < 3 { ls.len() as int } else { 3 })
}

/// The last three lines of a text, last first.
pub open spec fn last_lines(text: Seq<char>) -> Seq<Seq<char>> {
    let ls = lines_of(text).reverse();
    ls.subrange(0, if ls.len() < 3 { ls.len() as int } else { 3 })
}

/// On how many of the pages `ps` the line `x` is among the first three.
pub open spec fn head_count(ps: Seq<(u32, String)>, x: Seq<char>) -> nat
    decreases ps.len(),
{
    if ps.len() == 0 {
        0
    } else {
        head_count(ps.drop_last(), x) + if seen_in(first_lines(ps.last().1@), x) {
            1nat
        } else {
            0nat
        }
    }
}

/// On how many of the pages `ps` the line `x` is among the last three.
pub open spec fn tail_count(ps: Seq<(u32, String)>, x: Seq<char>) -> nat
    decreases ps.len(),
{
    if ps.len() == 0 {
        0
    } else {
        tail_count(ps.drop_last(), x) + if seen_in(last_lines(ps.last().1@), x) {
            1nat
        } else {
            0nat
        }
    }
}

/// 60% of `n`, rounded up.
pub open spec fn threshold(n: nat) -> nat {
    (3 * n + 4) / 5
}

pub open spec fn is_header(ps: Seq<(u32, String)>, x: Seq<char>) -> bool {
    head_count(ps, x) >= threshold(ps.len())
}

pub open spec fn is_footer(ps: Seq<(u32, String)>, x: Seq<char>) -> bool {
    tail_count(ps, x) >= threshold(ps.len())
}

/// The lines of `ls` that are neither a header nor a footer of `ps`.
pub open spec fn kept_lines(ls: Seq<Seq<char>>, ps: Seq<(u32, String)>) -> Seq<Seq<char>>
    decreases ls.len(),
{
    if ls.len() == 0 {
        Seq::empty()
    } else {
        let r = kept_lines(ls.drop_last(), ps);
        if is_header(ps, trim(ls.last())) || is_footer(ps, trim(ls.last())) {
            r
        } else {
            r.push(ls.last())
        }
    }
}

/// A page's text with every header and footer line of `ps` removed.
pub open spec fn stripped(text: Seq<char>, ps: Seq<(u32, String)>) -> Seq<char> {
    trim(join(kept_lines(lines_of(text), ps), "\n"@))
}

/// The count recorded for `x` in a table of distinct lines.
pub open spec fn table_count(t: Seq<(Vec<char>, u128)>, x: Seq<char>) -> nat
    decreases t.len(),
{
    if t.len() == 0 {
        0
    } else if t.last().0@ == x {
        t.last().1 as nat
    } else {
        table_count(t.drop_last(), x)
    }
}

pub open spec fn distinct_keys(t: Seq<(Vec<char>, u128)>) -> bool {
    forall|i: int, j: int| 0 <= i < j < t.len() ==> t[i].0@ != t[j].0@
}

proof fn lemma_table_count_at(t: Seq<(Vec<char>, u128)>, j: int)
    requires
        distinct_keys(t),
        0 <= j < t.len(),
    ensures
        table_count(t, t[j].0@) == t[j].1 as nat,
    decreases t.len(),
{
    if j < t.len() - 1 {
        lemma_table_count_at(t.drop_last(), j);
    }
}

proof fn lemma_table_count_absent(t: Seq<(Vec<char>, u128)>, x: Seq<char>)
    requires
        forall|j: int| 0 <= j < t.len() ==> t[j].0@ != x,
    ensures
        table_count(t, x) == 0,
    decreases t.len(),
{
    if t.len() > 0 {
        lemma_table_count_absent(t.drop_last(), x);
    }
}

proof fn lemma_table_count_bump(t: Seq<(Vec<char>, u128)>, j: int, e: (Vec<char>, u128), y: Seq<char>)
    requires
        distinct_keys(t),
        0 <= j < t.len(),
        e.0@ == t[j].0@,
        e.1 == t[j].1 + 1,
    ensures
        table_count(t.update(j, e), y) == table_count(t, y) + if y == e.0@ {
            1nat
        } else {
            0nat
        },
    decreases t.len(),
{
    let u = t.update(j, e);
    if j < t.len() - 1 {
        assert(u.drop_last() =~= t.drop_last().update(j, e));
        lemma_table_count_bump(t.drop_last(), j, e, y);
        if t.last().0@ == y {
            assert(y != e.0@);
        }
    } else {
        assert(u.drop_last() =~= t.drop_last());
    }
}

/// Adds one to the count of `x` in the table.
fn bump(table: &mut Vec<(Vec<char>, u128)>, x: &Vec<char>)
    requires
        distinct_keys(old(table)@),
        table_count(old(table)@, x@) < u128::MAX,
    ensures
        distinct_keys(final(table)@),
        forall|y: Seq<char>|
            #[trigger] table_count(final(table)@, y) == table_count(old(table)@, y) + if y == x@ {
                1nat
            } else {
                0nat
            },
{
    let mut j: usize = 0;
    while j < table.len()
        invariant
            j <= table.len(),
            table@ == old(table)@,
            distinct_keys(table@),
            table_count(table@, x@) < u128::MAX,
            forall|k: int| 0 <= k < j ==> table@[k].0@ != x@,
        decreases table.len() - j,
    {
        if same_chars(&table[j].0, x) {
            proof {
                lemma_table_count_at(table@, j as int);
            }
            let c = table[j].1;
            let key = copy_chars(&table[j].0);
            let e = (key, c + 1);
            proof {
                assert forall|y: Seq<char>| #[trigger]
                    table_count(table@.update(j as int, e), y) == table_count(table@, y) + if y
                        == x@ {
                        1nat
                    } else {
                        0nat
                    } by {
                    lemma_table_count_bump(table@, j as int, e, y);
                }
            }
            table.set(j, e);
            return ;
        }
        j = j + 1;
    }
    proof {
        lemma_table_count_absent(table@, x@);
    }
    let e = (copy_chars(x), 1u128);
    let ghost before = table@;
    table.push(e);
    assert forall|y: Seq<char>| #[trigger]
        table_count(table@, y) == table_count(before, y) + if y == x@ {
            1nat
        } else {
            0nat
        } by {
        assert(table@.drop_last() =~= before);
        if y == x@ {
            lemma_table_count_absent(before, y);
        }
    }
}

proof fn lemma_head_count_le(ps: Seq<(u32, String)>, y: Seq<char>)
    ensures
        head_count(ps, y) <= ps.len(),
        tail_count(ps, y) <= ps.len(),
    decreases ps.len(),
{
    if ps.len() > 0 {
        lemma_head_count_le(ps.drop_last(), y);
    }
}

/// Tests whether `x` is one of `seen`.
fn contains_line(seen: &Vec<Vec<char>>, x: &Vec<char>) -> (r: bool)
    ensures
        r == views(seen@).contains(x@),
{
    let mut i: usize = 0;
    while i < seen.len()
        invariant
            i <= seen.len(),
            forall|k: int| 0 <= k < i ==> views(seen@)[k] != x@,
        decreases seen.len() - i,
    {
        if same_chars(&seen[i], x) {
            assert(views(seen@)[i as int] == x@);
            return true;
        }
        i = i + 1;
    }
    false
}

/// Counts, once each, the candidate lines of one page's sample in the
/// table.
fn tally_sample(table: &mut Vec<(Vec<char>, u128)>, sample: &Vec<Vec<char>>)
    requires
        distinct_keys(old(table)@),
        forall|y: Seq<char>| #[trigger] table_count(old(table)@, y) < u128::MAX,
    ensures
        distinct_keys(final(table)@),
        forall|y: Seq<char>|
            #[trigger] table_count(final(table)@, y) == table_count(old(table)@, y) + if seen_in(
                views(sample@),
                y,
            ) {
                1nat
            } else {
                0nat
            },
{
    let ghost ls = views(sample@);
    let mut seen: Vec<Vec<char>> = Vec::new();
    let mut k: usize = 0;
    while k < sample.len()
        invariant
            ls == views(sample@),
            k <= sample.len(),
            distinct_keys(table@),
            forall|y: Seq<char>| #[trigger] table_count(old(table)@, y) < u128::MAX,
            forall|y: Seq<char>|
                #[trigger] table_count(table@, y) == table_count(old(table)@, y) + if seen_in(
                    ls.subrange(0, k as int),
                    y,
                ) {
                    1nat
                } else {
                    0nat
                },
            forall|y: Seq<char>|
                #[trigger] views(seen@).contains(y) == seen_in(ls.subrange(0, k as int), y),
        decreases sample.len() - k,
    {
        let ghost pre = ls.subrange(0, k as int);
        let ghost next = ls.subrange(0, k as int + 1);
        assert(next.drop_last() =~= pre);
        assert(next.last() == ls[k as int]);
        let t = trim_chars(&sample[k]);
        let fresh = t.len() > 0 && byte_size(&t) < 200 && !contains_line(&seen, &t);
        assert(forall|y: Seq<char>|
            #[trigger] seen_in(next, y) == (seen_in(pre, y) || (candidate(ls[k as int]) && t@ == y)));
        if fresh {
            let ghost before = table@;
            let ghost old_seen = views(seen@);
            bump(table, &t);
            seen.push(t);
            assert(views(seen@) =~= old_seen.push(t@));
            assert forall|y: Seq<char>| #[trigger] views(seen@).contains(y) == seen_in(next, y) by {
                if y == t@ {
                    assert(views(seen@)[old_seen.len() as int] == y);
                } else if old_seen.contains(y) {
                    let j = choose|j: int| 0 <= j < old_seen.len() && old_seen[j] == y;
                    assert(views(seen@)[j] == y);
                } else if views(seen@).contains(y) {
                    let j = choose|j: int| 0 <= j < views(seen@).len() && views(seen@)[j] == y;
                    assert(j < old_seen.len());
                    assert(old_seen[j] == y);
                }
            }
        }
        k = k + 1;
    }
    assert(ls.subrange(0, sample.len() as int) =~= ls);
}

/// The views of a sequence of strings.
pub open spec fn string_views(s: Seq<String>) -> Seq<Seq<char>> {
    s.map_values(|x: String| x@)
}

pub open spec fn no_repeats(s: Seq<Seq<char>>) -> bool {
    forall|i: int, j: int| 0 <= i < j < s.len() ==> s[i] != s[j]
}

/// The lines of the table counted at least `thr` times, in table order.
fn lines_reaching(table: &Vec<(Vec<char>, u128)>, thr: u128) -> (r: Vec<String>)
    requires
        distinct_keys(table@),
        thr >= 1,
    ensures
        no_repeats(string_views(r@)),
        forall|x: Seq<char>|
            #[trigger] string_views(r@).contains(x) <==> table_count(table@, x) >= thr,
{
    let mut r: Vec<String> = Vec::new();
    let ghost mut src: Seq<int> = Seq::empty();
    let mut j: usize = 0;
    while j < table.len()
        invariant
            j <= table.len(),
            distinct_keys(table@),
            no_repeats(string_views(r@)),
            src.len() == r@.len(),
            forall|m: int|
                0 <= m < r@.len() ==> 0 <= #[trigger] src[m] < j && table@[src[m]].0@
                    == string_views(r@)[m] && table@[src[m]].1 >= thr,
            forall|k: int|
                0 <= k < j && table@[k].1 >= thr ==> string_views(r@).contains(
                    #[trigger] table@[k].0@,
                ),
        decreases table.len() - j,
    {
        let ghost before = string_views(r@);
        if table[j].1 >= thr {
            let s = string_of(&table[j].0);
            r.push(s);
            assert(string_views(r@) =~= before.push(table@[j as int].0@));
            let ghost key = table@[j as int].0@;
            assert forall|m: int| 0 <= m < before.len() implies before[m] != key by {
                assert(table@[src[m]].0@ == before[m]);
            }
            proof {
                src = src.push(j as int);
            }
            assert(string_views(r@)[before.len() as int] == key);
            assert forall|k: int|
                0 <= k < j + 1 && table@[k].1 >= thr implies string_views(r@).contains(
                #[trigger] table@[k].0@,
            ) by {
                if k < j {
                    let m = choose|m: int| 0 <= m < before.len() && before[m] == table@[k].0@;
                    assert(string_views(r@)[m] == before[m]);
                } else {
                    assert(string_views(r@)[before.len() as int] == key);
                }
            }
        }
        j = j + 1;
    }
    assert forall|x: Seq<char>| #[trigger]
        string_views(r@).contains(x) <==> table_count(table@, x) >= thr by {
        if string_views(r@).contains(x) {
            let m = choose|m: int| 0 <= m < r@.len() && string_views(r@)[m] == x;
            lemma_table_count_at(table@, src[m]);
        }
        if table_count(table@, x) >= thr {
            if forall|k: int| 0 <= k < table@.len() ==> table@[k].0@ != x {
                lemma_table_count_absent(table@, x);
            } else {
                let k = choose|k: int| 0 <= k < table@.len() && table@[k].0@ == x;
                lemma_table_count_at(table@, k);
            }
        }
    }
    r
}

/// Tests whether `x` is one of `list`.
fn listed(list: &Vec<String>, x: &Vec<char>) -> (r: bool)
    ensures
        r == string_views(list@).contains(x@),
{
    let mut i: usize = 0;
    while i < list.len()
        invariant
            i <= list.len(),
            forall|k: int| 0 <= k < i ==> string_views(list@)[k] != x@,
        decreases list.len() - i,
    {
        if same_chars(&chars_of(list[i].as_str()), x) {
            assert(string_views(list@)[i as int] == x@);
            return true;
        }
        i = i + 1;
    }
    false
}

/// Removes the lines that repeat at the top or at the bottom of most pages.
///
/// Only a document of three pages or more is touched. The first three and
/// the last three lines of every page are trimmed; each that is not empty
/// and under 200 bytes counts the page once, tops and bottoms apart. A line
/// found on at least 60% of the pages (rounded up) is a header, or a
/// footer. Every line whose trimmed form is a header or a footer is then
/// removed from every page, and each page's text is trimmed. Returns the
/// headers and the footers found.
pub fn strip_headers_footers(page_texts: &mut Vec<(u32, String)>) -> (r: (Vec<String>, Vec<String>))
    ensures
        old(page_texts)@.len() < 3 ==> final(page_texts)@ == old(page_texts)@ && r.0@.len() == 0
            && r.1@.len() == 0,
        old(page_texts)@.len() >= 3 ==> {
            &&& no_repeats(string_views(r.0@))
            &&& no_repeats(string_views(r.1@))
            &&& forall|x: Seq<char>|
                #[trigger] string_views(r.0@).contains(x) <==> is_header(old(page_texts)@, x)
            &&& forall|x: Seq<char>|
                #[trigger] string_views(r.1@).contains(x) <==> is_footer(old(page_texts)@, x)
        },
        r.0@.len() == 0 && r.1@.len() == 0 ==> final(page_texts)@ == old(page_texts)@,
        r.0@.len() > 0 || r.1@.len() > 0 ==> {
            &&& final(page_texts)@.len() == old(page_texts)@.len()
            &&& forall|i: int|
                0 <= i < old(page_texts)@.len() ==> (#[trigger] final(page_texts)@[i]).0 == old(
                    page_texts,
                )@[i].0 && final(page_texts)@[i].1@ == stripped(
                    old(page_texts)@[i].1@,
                    old(page_texts)@,
                )
        },
{
    let n = page_texts.len();
    if n < 3 {
        return (Vec::new(), Vec::new());
    }
    let ghost ps = page_texts@;
    let mut heads: Vec<(Vec<char>, u128)> = Vec::new();
    let mut tails: Vec<(Vec<char>, u128)> = Vec::new();
    let mut i: usize = 0;
    while i < n
        invariant
            page_texts@ == ps,
            n == ps.len(),
            i <= n,
            distinct_keys(heads@),
            distinct_keys(tails@),
            forall|y: Seq<char>|
                #[trigger] table_count(heads@, y) == head_count(ps.subrange(0, i as int), y),
            forall|y: Seq<char>|
                #[trigger] table_count(tails@, y) == tail_count(ps.subrange(0, i as int), y),
        decreases n - i,
    {
        let ghost pre = ps.subrange(0, i as int);
        assert(pre.len() == i);
        assert(ps.subrange(0, i as int + 1).drop_last() =~= pre);
        let lines = lines_chars(&chars_of(page_texts[i].1.as_str()));
        let ghost ls = views(lines@);
        let m = lines.len();
        let take = if m < 3 {
            m
        } else {
            3
        };
        let mut first: Vec<Vec<char>> = Vec::new();
        let mut last: Vec<Vec<char>> = Vec::new();
        let mut k: usize = 0;
        while k < take
            invariant
                ls == views(lines@),
                m == lines.len(),
                take <= m,
                k <= take,
                views(first@) == ls.subrange(0, k as int),
                views(last@) == ls.reverse().subrange(0, k as int),
            decreases take - k,
        {
            let ghost f = views(first@);
            let ghost l = views(last@);
            first.push(copy_chars(&lines[k]));
            last.push(copy_chars(&lines[m - 1 - k]));
            assert(views(first@) =~= ls.subrange(0, k as int + 1)) by {
                assert(views(first@) =~= f.push(ls[k as int]));
            }
            assert(views(last@) =~= ls.reverse().subrange(0, k as int + 1)) by {
                assert(views(last@) =~= l.push(ls[m - 1 - k]));
            }
            k = k + 1;
        }
        assert(views(first@) == first_lines(ps[i as int].1@));
        assert(views(last@) == last_lines(ps[i as int].1@));
        proof {
            assert forall|y: Seq<char>| #[trigger] table_count(heads@, y) < u128::MAX by {
                lemma_head_count_le(pre, y);
            }
            assert forall|y: Seq<char>| #[trigger] table_count(tails@, y) < u128::MAX by {
                lemma_head_count_le(pre, y);
            }
        }
        tally_sample(&mut heads, &first);
        tally_sample(&mut tails, &last);
        i = i + 1;
    }
    assert(ps.subrange(0, n as int) =~= ps);
    let thr: u128 = (3 * (n as u128) + 4) / 5;
    let headers = lines_reaching(&heads, thr);
    let footers = lines_reaching(&tails, thr);
    if headers.len() == 0 && footers.len() == 0 {
        return (headers, footers);
    }
    let mut out: Vec<(u32, String)> = Vec::new();
    let mut i: usize = 0;
    while i < n
        invariant
            page_texts@ == ps,
            n == ps.len(),
            i <= n,
            out@.len() == i,
            forall|x: Seq<char>|
                #[trigger] string_views(headers@).contains(x) <==> is_header(ps, x),
            forall|x: Seq<char>|
                #[trigger] string_views(footers@).contains(x) <==> is_footer(ps, x),
            forall|j: int|
                0 <= j < i ==> (#[trigger] out@[j]).0 == ps[j].0 && out@[j].1@ == stripped(
                    ps[j].1@,
                    ps,
                ),
        decreases n - i,
    {
        let lines = lines_chars(&chars_of(page_texts[i].1.as_str()));
        let ghost ls = views(lines@);
        let mut kept: Vec<Vec<char>> = Vec::new();
        let mut k: usize = 0;
        while k < lines.len()
            invariant
                ls == views(lines@),
                k <= lines.len(),
                forall|x: Seq<char>|
                    #[trigger] string_views(headers@).contains(x) <==> is_header(ps, x),
                forall|x: Seq<char>|
                    #[trigger] string_views(footers@).contains(x) <==> is_footer(ps, x),
                views(kept@) == kept_lines(ls.subrange(0, k as int), ps),
            decreases lines.len() - k,
        {
            assert(ls.subrange(0, k as int + 1).drop_last() =~= ls.subrange(0, k as int));
            let t = trim_chars(&lines[k]);
            if !(listed(&headers, &t) || listed(&footers, &t)) {
                let ghost before = views(kept@);
                let l = copy_chars(&lines[k]);
                kept.push(l);
                assert(views(kept@) =~= before.push(ls[k as int]));
            }
            k = k + 1;
        }
        assert(ls.subrange(0, lines.len() as int) =~= ls);
        let text = string_of(&trim_chars(&join_chars(&kept, &chars_of("\n"))));
        out.push((page_texts[i].0, text));
        i = i + 1;
    }
    *page_texts = out;
    (headers, footers)
}

} // verus!
