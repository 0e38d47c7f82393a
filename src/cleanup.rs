//! Paragraph reconstruction for text taken from a PDF's text layer: broken
//! lines are joined, whitespace is normalised, and paragraph boundaries,
//! list items, sentence ends and table rows are kept.
use vstd::prelude::*;
use crate::fmt::{join, join_chars};
use crate::text::{
    begins, chars_of, contains_chars, ends_with_chars, extend_chars, finishes, has_sub, is_whitespace,
    is_ws, split_chars, split_on, starts_with_chars, string_of, trim, trim_chars, trim_end,
    trim_start, views,
};

verus! {

/// The number of pieces of `s` between occurrences of two spaces (taken
/// from the left, without overlap) that hold a non-whitespace character;
/// `live` says whether the piece under way already holds one.
pub open spec fn seg_count(s: Seq<char>, live: bool) -> nat
    decreases s.len(),
{
    if s.len() == 0 {
        if live {
            1
        } else {
            0
        }
    } else if s.len() >= 2 && s[0] == ' ' && s[1] == ' ' {
        (if live {
            1nat
        } else {
            0nat
        }) + seg_count(s.subrange(2, s.len() as int), false)
    } else {
        seg_count(s.drop_first(), live || !is_ws(s[0]))
    }
}

/// A line that reads as a table row: three or more columns separated by
/// runs of two spaces.
pub open spec fn is_table_row(line: Seq<char>) -> bool {
    seg_count(line, false) >= 3
}

/// The words of `s` joined with single spaces; `pending` says a space is
/// owed before the next word, `started` that a word has been written.
pub open spec fn words_from(s: Seq<char>, pending: bool, started: bool) -> Seq<char>
    decreases s.len(),
{
    if s.len() == 0 {
        Seq::empty()
    } else if is_ws(s[0]) {
        words_from(s.drop_first(), started, started)
    } else {
        (if pending {
            seq![' ']
        } else {
            Seq::empty()
        }) + seq![s[0]] + words_from(s.drop_first(), false, true)
    }
}

/// `s` with every run of whitespace made one space, and none at either end.
pub open spec fn collapse(s: Seq<char>) -> Seq<char> {
    words_from(s, false, false)
}

/// A line that starts a list item or a heading and so keeps its own line.
pub open spec fn starts_item(line: Seq<char>) -> bool {
    ||| begins(line, "- "@)
    ||| begins(line, "* "@)
    ||| begins(line, "• "@)
    ||| begins(line, "# "@)
    ||| begins(line, "> "@)
    ||| (line.len() > 0 && '0' <= line[0] && line[0] <= '9' && has_sub(line, ". "@))
}

/// Text that ends a sentence: ASCII `.` `!` `?` `:`, the Thai repetition
/// mark, the danda, or a Thai polite particle.
pub open spec fn ends_sentence(text: Seq<char>) -> bool {
    &&& text.len() > 0
    &&& {
        ||| text.last() == '.' || text.last() == '!' || text.last() == '?' || text.last() == ':'
        ||| text.last() == 'ๆ' || text.last() == '।'
        ||| finishes(text, "ครับ"@)
        ||| finishes(text, "ค่ะ"@)
        ||| finishes(text, "นะคะ"@)
        ||| finishes(text, "นะครับ"@)
    }
}

/// A physical line as it enters a paragraph: table rows verbatim, other
/// lines with their whitespace collapsed.
pub open spec fn normalized(t: Seq<char>) -> Seq<char> {
    if is_table_row(t) {
        t
    } else {
        collapse(t)
    }
}

/// One physical line taken into the finished paragraphs and the paragraph
/// under way.
pub open spec fn take_line(
    paras: Seq<Seq<char>>,
    cur: Seq<char>,
    line: Seq<char>,
) -> (Seq<Seq<char>>, Seq<char>) {
    let t = trim(line);
    if t.len() == 0 {
        if cur.len() > 0 {
            (paras.push(cur), Seq::empty())
        } else {
            (paras, cur)
        }
    } else {
        let norm = normalized(t);
        if cur.len() == 0 {
            (paras, norm)
        } else if is_table_row(t) || starts_item(norm) || ends_sentence(cur) {
            (paras, cur + seq!['\n'] + norm)
        } else {
            (paras, cur + seq![' '] + norm)
        }
    }
}

/// The physical lines `ls` taken in order, from the state `st`.
pub open spec fn take_from(st: (Seq<Seq<char>>, Seq<char>), ls: Seq<Seq<char>>) -> (
    Seq<Seq<char>>,
    Seq<char>,
)
    decreases ls.len(),
{
    if ls.len() == 0 {
        st
    } else {
        let (paras, cur) = take_from(st, ls.drop_last());
        take_line(paras, cur, ls.last())
    }
}

/// The physical lines `ls` taken in order, from nothing.
pub open spec fn take_lines(ls: Seq<Seq<char>>) -> (Seq<Seq<char>>, Seq<char>) {
    take_from((Seq::empty(), Seq::empty()), ls)
}

/// The cleaned text: paragraphs, separated by blank lines, built from the
/// lines of `text`.
pub open spec fn cleanup(text: Seq<char>) -> Seq<char> {
    if text.len() == 0 {
        Seq::empty()
    } else {
        let (paras, cur) = take_lines(split_on(text, '\n'));
        join(
            if cur.len() > 0 {
                paras.push(cur)
            } else {
                paras
            },
            "\n\n"@,
        )
    }
}

/// Tests `is_table_row(line@)`.
pub fn looks_like_table_line(line: &Vec<char>) -> (r: bool)
    ensures
        r == is_table_row(line@),
{
    let n = line.len();
    let mut count: usize = 0;
    let mut live = false;
    let mut i: usize = 0;
    assert(line@.subrange(0, n as int) =~= line@);
    while i < n
        invariant
            n == line.len(),
            i <= n,
            count <= i,
            count + seg_count(line@.subrange(i as int, n as int), live) == seg_count(
                line@,
                false,
            ),
        decreases n - i,
    {
        let ghost rest = line@.subrange(i as int, n as int);
        if i + 1 < n && line[i] == ' ' && line[i + 1] == ' ' {
            assert(rest.subrange(2, rest.len() as int) =~= line@.subrange(i as int + 2, n as int));
            if live {
                count = count + 1;
            }
            live = false;
            i = i + 2;
        } else {
            assert(rest.drop_first() =~= line@.subrange(i as int + 1, n as int));
            live = live || !is_whitespace(line[i]);
            i = i + 1;
        }
    }
    count >= 3 || (live && count >= 2)
}

/// Computes `collapse(s@)`.
pub fn collapse_whitespace(s: &Vec<char>) -> (r: Vec<char>)
    ensures
        r@ == collapse(s@),
{
    let n = s.len();
    let mut out: Vec<char> = Vec::new();
    let mut pending = false;
    let mut started = false;
    let mut i: usize = 0;
    assert(s@.subrange(0, n as int) =~= s@);
    while i < n
        invariant
            n == s.len(),
            i <= n,
            out@ + words_from(s@.subrange(i as int, n as int), pending, started) == collapse(s@),
        decreases n - i,
    {
        let ghost rest = s@.subrange(i as int, n as int);
        let ghost before = out@;
        let ghost was_pending = pending;
        assert(rest.drop_first() =~= s@.subrange(i as int + 1, n as int));
        if is_whitespace(s[i]) {
            pending = started;
        } else {
            if pending {
                out.push(' ');
            }
            out.push(s[i]);
            pending = false;
            started = true;
            assert(out@ =~= before + (if was_pending {
                seq![' ']
            } else {
                Seq::empty()
            }) + seq![rest[0]]);
            assert(out@ + words_from(s@.subrange(i as int + 1, n as int), pending, started)
                =~= before + words_from(rest, was_pending, true));
        }
        i = i + 1;
    }
    out
}

/// Tests `starts_item(line@)`.
pub fn should_break_before(line: &Vec<char>) -> (r: bool)
    ensures
        r == starts_item(line@),
{
    starts_with_chars(line, &chars_of("- ")) || starts_with_chars(line, &chars_of("* "))
        || starts_with_chars(line, &chars_of("• ")) || starts_with_chars(line, &chars_of("# "))
        || starts_with_chars(line, &chars_of("> ")) || (line.len() > 0 && '0' <= line[0]
        && line[0] <= '9' && contains_chars(line, &chars_of(". ")))
}

/// Tests `ends_sentence(text@)`.
pub fn should_break_after(text: &Vec<char>) -> (r: bool)
    ensures
        r == ends_sentence(text@),
{
    if text.len() == 0 {
        return false;
    }
    let c = text[text.len() - 1];
    c == '.' || c == '!' || c == '?' || c == ':' || c == 'ๆ' || c == '।' || ends_with_chars(
        text,
        &chars_of("ครับ"),
    ) || ends_with_chars(text, &chars_of("ค่ะ")) || ends_with_chars(text, &chars_of("นะคะ"))
        || ends_with_chars(text, &chars_of("นะครับ"))
}

/// Cleans text from a PDF's text layer for retrieval.
///
/// Blank lines separate paragraphs. Each other line is trimmed; a line of
/// three or more columns separated by two spaces is kept verbatim on a line
/// of its own, any other has its whitespace collapsed. Within a paragraph
/// such a line starts a new line (`\n`) when it begins a list item or
/// heading (`- `, `* `, `• `, `# `, `> `, or a digit with `. `) or the text
/// before it ends a sentence; otherwise it is joined to the text before it
/// with one space. Paragraphs are separated by one blank line.
pub fn cleanup_extracted_text(text: &str) -> (r: String)
    ensures
        r@ == cleanup(text@),
{
    let chars = chars_of(text);
    if chars.len() == 0 {
        return String::new();
    }
    let raw = split_chars(&chars, '\n');
    let ghost ls = views(raw@);
    let mut paras: Vec<Vec<char>> = Vec::new();
    let mut cur: Vec<char> = Vec::new();
    let mut i: usize = 0;
    while i < raw.len()
        invariant
            i <= raw.len(),
            ls == views(raw@),
            (views(paras@), cur@) == take_lines(ls.subrange(0, i as int)),
        decreases raw.len() - i,
    {
        assert(ls.subrange(0, i as int + 1).drop_last() =~= ls.subrange(0, i as int));
        let ghost before_paras = views(paras@);
        let ghost before_cur = cur@;
        let t = trim_chars(&raw[i]);
        if t.len() == 0 {
            if cur.len() > 0 {
                let done = cur;
                paras.push(done);
                cur = Vec::new();
                assert(views(paras@) =~= before_paras.push(before_cur));
            }
        } else {
            let tabular = looks_like_table_line(&t);
            let norm = if tabular {
                t
            } else {
                collapse_whitespace(&t)
            };
            if cur.len() == 0 {
                cur = norm;
            } else if tabular || should_break_before(&norm) || should_break_after(&cur) {
                cur.push('\n');
                extend_chars(&mut cur, &norm);
                assert(cur@ =~= before_cur + seq!['\n'] + norm@);
            } else {
                cur.push(' ');
                extend_chars(&mut cur, &norm);
                assert(cur@ =~= before_cur + seq![' '] + norm@);
            }
        }
        i = i + 1;
    }
    assert(ls.subrange(0, raw.len() as int) =~= ls);
    if cur.len() > 0 {
        let ghost before_paras = views(paras@);
        let ghost c = cur@;
        paras.push(cur);
        assert(views(paras@) =~= before_paras.push(c));
    }
    string_of(&join_chars(&paras, &chars_of("\n\n")))
}

/// Whitespace only as single spaces between other characters.
pub open spec fn spaced(w: Seq<char>) -> bool {
    &&& (w.len() == 0 || !is_ws(w.last()))
    &&& forall|i: int|
        0 <= i < w.len() && is_ws(#[trigger] w[i]) ==> w[i] == ' ' && i + 1 < w.len() && !is_ws(
            w[i + 1],
        )
}

/// Words separated by single spaces: not empty, no whitespace at either end
/// or doubled.
pub open spec fn single_spaced(s: Seq<char>) -> bool {
    s.len() > 0 && !is_ws(s[0]) && spaced(s)
}

proof fn lemma_words_spaced(s: Seq<char>, pending: bool, started: bool)
    ensures
        spaced(words_from(s, pending, started)),
        !started && !pending && words_from(s, pending, started).len() > 0 ==> !is_ws(
            words_from(s, pending, started)[0],
        ),
        (exists|i: int| 0 <= i < s.len() && !is_ws(s[i])) ==> words_from(
            s,
            pending,
            started,
        ).len() > 0,
    decreases s.len(),
{
    if s.len() > 0 {
        let rest = s.drop_first();
        if is_ws(s[0]) {
            lemma_words_spaced(rest, started, started);
            if exists|i: int| 0 <= i < s.len() && !is_ws(s[i]) {
                let i = choose|i: int| 0 <= i < s.len() && !is_ws(s[i]);
                assert(!is_ws(rest[i - 1]));
            }
        } else {
            lemma_words_spaced(rest, false, true);
            let r = words_from(rest, false, true);
            let head: Seq<char> = if pending {
                seq![' ']
            } else {
                Seq::empty()
            };
            let w = head + seq![s[0]] + r;
            assert(words_from(s, pending, started) == w);
            assert forall|i: int| 0 <= i < w.len() && is_ws(#[trigger] w[i]) implies w[i] == ' '
                && i + 1 < w.len() && !is_ws(w[i + 1]) by {
                if i < head.len() {
                } else if i == head.len() {
                } else {
                    assert(w[i] == r[i - head.len() - 1]);
                    if i + 1 < w.len() {
                        assert(w[i + 1] == r[i - head.len()]);
                    }
                }
            }
            if r.len() > 0 {
                assert(w.last() == r.last());
            }
        }
    }
}

/// Collapsing the whitespace of a text with a visible character gives
/// words separated by single spaces.
proof fn lemma_collapse_single_spaced(t: Seq<char>)
    requires
        t.len() > 0,
        !is_ws(t[0]),
    ensures
        single_spaced(collapse(t)),
{
    lemma_words_spaced(t, false, false);
}

proof fn lemma_words_keep(s: Seq<char>)
    requires
        spaced(s),
    ensures
        words_from(s, false, true) == s,
    decreases s.len(),
{
    if s.len() > 0 {
        let s1 = s.drop_first();
        assert(spaced(s1)) by {
            assert forall|i: int| 0 <= i < s1.len() && is_ws(#[trigger] s1[i]) implies s1[i]
                == ' ' && i + 1 < s1.len() && !is_ws(s1[i + 1]) by {
                assert(s1[i] == s[i + 1]);
            }
            if s1.len() > 0 {
                assert(s1.last() == s.last());
            }
        }
        if is_ws(s[0]) {
            assert(s[0] == ' ' && s.len() >= 2 && !is_ws(s[1]));
            let s2 = s1.drop_first();
            assert(spaced(s2)) by {
                assert forall|i: int| 0 <= i < s2.len() && is_ws(#[trigger] s2[i]) implies s2[i]
                    == ' ' && i + 1 < s2.len() && !is_ws(s2[i + 1]) by {
                    assert(s2[i] == s[i + 2]);
                }
                if s2.len() > 0 {
                    assert(s2.last() == s.last());
                }
            }
            lemma_words_keep(s2);
            assert(words_from(s1, true, true) == seq![' '] + seq![s1[0]] + words_from(
                s2,
                false,
                true,
            ));
            assert(s =~= seq![' '] + seq![s1[0]] + s2);
        } else {
            lemma_words_keep(s1);
            assert(s =~= seq![s[0]] + s1);
        }
    }
}

/// Collapsing words already separated by single spaces changes nothing.
proof fn lemma_collapse_keeps(s: Seq<char>)
    requires
        single_spaced(s),
    ensures
        collapse(s) == s,
{
    let s1 = s.drop_first();
    assert(spaced(s1)) by {
        assert forall|i: int| 0 <= i < s1.len() && is_ws(#[trigger] s1[i]) implies s1[i] == ' '
            && i + 1 < s1.len() && !is_ws(s1[i + 1]) by {
            assert(s1[i] == s[i + 1]);
        }
        if s1.len() > 0 {
            assert(s1.last() == s.last());
        }
    }
    lemma_words_keep(s1);
    assert(s =~= seq![s[0]] + s1);
}

/// Joining two such texts with a space keeps single spacing.
proof fn lemma_single_spaced_join(a: Seq<char>, b: Seq<char>)
    requires
        single_spaced(a),
        single_spaced(b),
    ensures
        single_spaced(a + seq![' '] + b),
{
    let w = a + seq![' '] + b;
    assert forall|i: int| 0 <= i < w.len() && is_ws(#[trigger] w[i]) implies w[i] == ' ' && i + 1
        < w.len() && !is_ws(w[i + 1]) by {
        if i < a.len() {
            assert(w[i] == a[i]);
            if i + 1 < a.len() {
                assert(w[i + 1] == a[i + 1]);
            } else {
                assert(a[i] == a.last());
            }
        } else if i == a.len() {
            assert(w[i + 1] == b[0]);
        } else {
            assert(w[i] == b[i - a.len() - 1]);
            if i + 1 < w.len() {
                assert(w[i + 1] == b[i - a.len()]);
            }
        }
    }
    assert(w[0] == a[0]);
    assert(w.last() == b.last());
}

proof fn lemma_seg_count_plain(s: Seq<char>, live: bool)
    requires
        forall|i: int| 0 <= i < s.len() - 1 ==> !(#[trigger] s[i] == ' ' && s[i + 1] == ' '),
    ensures
        seg_count(s, live) <= 1,
    decreases s.len(),
{
    if s.len() > 0 {
        let r = s.drop_first();
        assert forall|i: int| 0 <= i < r.len() - 1 implies !(#[trigger] r[i] == ' ' && r[i + 1] == ' ') by {
            assert(r[i] == s[i + 1] && r[i + 1] == s[i + 2]);
        }
        lemma_seg_count_plain(r, live || !is_ws(s[0]));
    }
}

/// Single-spaced text is no table row.
proof fn lemma_single_spaced_not_row(s: Seq<char>)
    requires
        single_spaced(s),
    ensures
        !is_table_row(s),
{
    assert forall|i: int| 0 <= i < s.len() - 1 implies !(#[trigger] s[i] == ' ' && s[i + 1] == ' ') by {
        if s[i] == ' ' {
            assert(is_ws(s[i]));
        }
    }
    lemma_seg_count_plain(s, false);
}

proof fn lemma_seg_count_live(s: Seq<char>)
    ensures
        seg_count(s, true) >= 1,
    decreases s.len(),
{
    if s.len() >= 2 && s[0] == ' ' && s[1] == ' ' {
    } else if s.len() > 0 {
        lemma_seg_count_live(s.drop_first());
    }
}

/// Text added after a row's last column does not take columns away.
proof fn lemma_seg_count_extend(a: Seq<char>, x: Seq<char>, live: bool)
    requires
        a.len() > 0,
        a.last() != ' ',
    ensures
        seg_count(a + x, live) >= seg_count(a, live),
    decreases a.len(),
{
    let ax = a + x;
    if a.len() >= 2 && a[0] == ' ' && a[1] == ' ' {
        assert(ax[0] == ' ' && ax[1] == ' ');
        let a2 = a.subrange(2, a.len() as int);
        assert(a2.len() > 0);
        assert(a2.last() == a.last());
        assert(ax.subrange(2, ax.len() as int) =~= a2 + x);
        lemma_seg_count_extend(a2, x, false);
        assert(seg_count(ax, live) == (if live {
            1nat
        } else {
            0nat
        }) + seg_count(a2 + x, false));
        assert(seg_count(a, live) == (if live {
            1nat
        } else {
            0nat
        }) + seg_count(a2, false));
    } else {
        assert(!(ax.len() >= 2 && ax[0] == ' ' && ax[1] == ' ')) by {
            if a.len() == 1 {
                assert(ax[0] == a.last());
            } else {
                assert(ax[0] == a[0] && ax[1] == a[1]);
            }
        }
        let live2 = live || !is_ws(a[0]);
        assert(ax[0] == a[0]);
        assert(seg_count(ax, live) == seg_count(ax.drop_first(), live2));
        assert(seg_count(a, live) == seg_count(a.drop_first(), live2));
        if a.len() == 1 {
            assert(ax.drop_first() =~= x);
            assert(a.drop_first() =~= Seq::<char>::empty());
            assert(seg_count(a.drop_first(), live2) == if live2 {
                1nat
            } else {
                0nat
            });
            if live2 {
                lemma_seg_count_live(x);
            }
        } else {
            assert(ax.drop_first() =~= a.drop_first() + x);
            assert(a.drop_first().last() == a.last());
            lemma_seg_count_extend(a.drop_first(), x, live2);
        }
    }
}

/// A list-item or heading start stays one when text follows.
proof fn lemma_starts_item_extend(n: Seq<char>, x: Seq<char>)
    requires
        starts_item(n),
    ensures
        starts_item(n + x),
{
    let w = n + x;
    assert forall|p: Seq<char>| begins(n, p) implies begins(w, p) by {
        assert(w.subrange(0, p.len() as int) =~= n.subrange(0, p.len() as int));
    }
    if n.len() > 0 && '0' <= n[0] && n[0] <= '9' && has_sub(n, ". "@) {
        let i = choose|i: int| #[trigger] crate::text::occurs_at(n, ". "@, i);
        assert(w.subrange(i, i + ". "@.len()) =~= n.subrange(i, i + ". "@.len()));
        assert(crate::text::occurs_at(w, ". "@, i));
        assert(w[0] == n[0]);
    }
}

proof fn lemma_trim_keeps(s: Seq<char>)
    requires
        s.len() > 0,
        !is_ws(s[0]),
        !is_ws(s.last()),
    ensures
        trim(s) == s,
{
}

proof fn lemma_trim_ends(s: Seq<char>)
    ensures
        trim_start(s).len() > 0 ==> !is_ws(trim_start(s)[0]),
        trim_start(s).len() <= s.len(),
    decreases s.len(),
{
    if s.len() > 0 && is_ws(s[0]) {
        lemma_trim_ends(s.drop_first());
    }
}

proof fn lemma_trim_end_ends(s: Seq<char>)
    ensures
        trim_end(s).len() > 0 ==> !is_ws(trim_end(s).last()),
        trim_end(s).len() > 0 ==> trim_end(s)[0] == s[0],
        trim_end(s).len() <= s.len(),
        forall|i: int| 0 <= i < trim_end(s).len() ==> trim_end(s)[i] == s[i],
    decreases s.len(),
{
    if s.len() > 0 && is_ws(s.last()) {
        lemma_trim_end_ends(s.drop_last());
        assert forall|i: int| 0 <= i < trim_end(s).len() implies trim_end(s)[i] == s[i] by {
            assert(s.drop_last()[i] == s[i]);
        }
    }
}

/// A trimmed text that is not empty starts and ends with a visible
/// character.
proof fn lemma_trim_visible(s: Seq<char>)
    ensures
        trim(s).len() > 0 ==> !is_ws(trim(s)[0]) && !is_ws(trim(s).last()),
{
    lemma_trim_ends(s);
    lemma_trim_end_ends(trim_start(s));
}

pub open spec fn no_newline(s: Seq<char>) -> bool {
    forall|i: int| 0 <= i < s.len() ==> #[trigger] s[i] != '\n'
}

proof fn lemma_split_pieces(s: Seq<char>)
    ensures
        split_on(s, '\n').len() >= 1,
        forall|k: int|
            0 <= k < split_on(s, '\n').len() ==> no_newline(#[trigger] split_on(s, '\n')[k]),
    decreases s.len(),
{
    if s.len() > 0 {
        lemma_split_pieces(s.drop_last());
        let p = split_on(s.drop_last(), '\n');
        if s.last() != '\n' {
            let q = p.update(p.len() - 1, p.last().push(s.last()));
            assert forall|k: int| 0 <= k < q.len() implies no_newline(#[trigger] q[k]) by {
                if k == q.len() - 1 {
                    assert(no_newline(p[k]));
                    assert forall|i: int| 0 <= i < q[k].len() implies #[trigger] q[k][i] != '\n' by {
                        if i < p[k].len() {
                            assert(q[k][i] == p[k][i]);
                        }
                    }
                } else {
                    assert(q[k] == p[k]);
                }
            }
        } else {
            let q = p.push(Seq::<char>::empty());
            assert forall|k: int| 0 <= k < q.len() implies no_newline(#[trigger] q[k]) by {
                if k < p.len() {
                    assert(q[k] == p[k]);
                }
            }
        }
    }
}

proof fn lemma_split_one(b: Seq<char>)
    requires
        no_newline(b),
    ensures
        split_on(b, '\n') == seq![b],
    decreases b.len(),
{
    if b.len() > 0 {
        assert(no_newline(b.drop_last())) by {
            assert forall|i: int| 0 <= i < b.drop_last().len() implies #[trigger] b.drop_last()[i]
                != '\n' by {
                assert(b.drop_last()[i] == b[i]);
            }
        }
        lemma_split_one(b.drop_last());
        assert(b.last() != '\n');
        assert(b.drop_last().push(b.last()) =~= b);
        assert(seq![b.drop_last()].update(0, b.drop_last().push(b.last())) =~= seq![b]);
    } else {
        assert(b =~= Seq::<char>::empty());
    }
}

/// Text without a newline extends the last piece.
proof fn lemma_split_extend(c: Seq<char>, d: Seq<char>)
    requires
        no_newline(d),
    ensures
        split_on(c + d, '\n') == split_on(c, '\n').update(
            split_on(c, '\n').len() - 1,
            split_on(c, '\n').last() + d,
        ),
    decreases d.len(),
{
    lemma_split_pieces(c);
    let p = split_on(c, '\n');
    if d.len() == 0 {
        assert(c + d =~= c);
        assert(p.last() + d =~= p.last());
        assert(p.update(p.len() - 1, p.last()) =~= p);
    } else {
        let d1 = d.drop_last();
        lemma_split_extend(c, d1);
        assert((c + d).drop_last() =~= c + d1);
        assert((c + d).last() == d.last());
        let q = split_on(c + d1, '\n');
        assert(q == p.update(p.len() - 1, p.last() + d1));
        assert(q.last() == p.last() + d1);
        assert(q.update(q.len() - 1, q.last().push(d.last())) =~= p.update(
            p.len() - 1,
            p.last() + d,
        )) by {
            assert(p.last() + d1 + seq![d.last()] =~= p.last() + d);
            assert((p.last() + d1).push(d.last()) =~= p.last() + d);
        }
    }
}

/// A newline ends one piece and starts the next.
proof fn lemma_split_concat(a: Seq<char>, b: Seq<char>)
    ensures
        split_on(a + seq!['\n'] + b, '\n') == split_on(a, '\n') + split_on(b, '\n'),
    decreases b.len(),
{
    let an = a + seq!['\n'];
    if b.len() == 0 {
        assert(an + b =~= an);
        assert(an.drop_last() =~= a);
        assert(split_on(a, '\n').push(Seq::<char>::empty()) =~= split_on(a, '\n') + seq![
            Seq::<char>::empty(),
        ]);
    } else {
        let b1 = b.drop_last();
        lemma_split_concat(a, b1);
        lemma_split_pieces(b1);
        assert((an + b).drop_last() =~= an + b1);
        assert((an + b).last() == b.last());
        let pa = split_on(a, '\n');
        let pb = split_on(b1, '\n');
        if b.last() == '\n' {
            assert((pa + pb).push(Seq::<char>::empty()) =~= pa + pb.push(Seq::<char>::empty()));
        } else {
            let q = pa + pb;
            assert(q.update(q.len() - 1, q.last().push(b.last())) =~= pa + pb.update(
                pb.len() - 1,
                pb.last().push(b.last()),
            ));
        }
    }
}

/// Taking lines in two runs is taking them in one.
proof fn lemma_take_concat(st: (Seq<Seq<char>>, Seq<char>), a: Seq<Seq<char>>, b: Seq<Seq<char>>)
    ensures
        take_from(st, a + b) == take_from(take_from(st, a), b),
    decreases b.len(),
{
    if b.len() == 0 {
        assert(a + b =~= a);
    } else {
        lemma_take_concat(st, a, b.drop_last());
        assert((a + b).drop_last() =~= a + b.drop_last());
        assert((a + b).last() == b.last());
    }
}

/// Finished paragraphs stay untouched while later lines are taken.
proof fn lemma_take_keeps_done(
    done: Seq<Seq<char>>,
    cur: Seq<char>,
    ls: Seq<Seq<char>>,
)
    ensures
        take_from((done, cur), ls) == (done + take_from((Seq::empty(), cur), ls).0, take_from(
            (Seq::empty(), cur),
            ls,
        ).1),
    decreases ls.len(),
{
    if ls.len() == 0 {
        assert(done + Seq::<Seq<char>>::empty() =~= done);
    } else {
        lemma_take_keeps_done(done, cur, ls.drop_last());
        let r = take_from((Seq::empty(), cur), ls.drop_last());
        assert((done + r.0).push(r.1) =~= done + r.0.push(r.1));
    }
}

/// A line as cleaned text writes it: visible characters at both ends, no
/// newline, and either a table row or words separated by single spaces.
pub open spec fn clean_line(l: Seq<char>) -> bool {
    &&& l.len() > 0
    &&& !is_ws(l[0])
    &&& !is_ws(l.last())
    &&& no_newline(l)
    &&& is_table_row(l) || single_spaced(l)
}

/// A paragraph that taking its own lines again rebuilds, with what its
/// last line was joined to.
pub open spec fn settled(cur: Seq<char>) -> bool {
    let p = split_on(cur, '\n');
    let before = take_lines(p.drop_last());
    let l = p.last();
    &&& cur.len() > 0
    &&& p.len() >= 1
    &&& take_lines(p) == (Seq::<Seq<char>>::empty(), cur)
    &&& before.0 == Seq::<Seq<char>>::empty()
    &&& clean_line(l)
    &&& {
        ||| before.1.len() == 0 && cur == l
        ||| before.1.len() > 0 && (is_table_row(l) || starts_item(l) || ends_sentence(before.1))
            && cur == before.1 + seq!['\n'] + l
    }
}

proof fn lemma_no_newline_trim(s: Seq<char>)
    requires
        no_newline(s),
    ensures
        no_newline(trim(s)),
{
    lemma_trim_ends(s);
    assert forall|i: int| 0 <= i < trim_start(s).len() implies #[trigger] trim_start(s)[i]
        != '\n' by {
        lemma_trim_start_suffix(s);
        assert(trim_start(s)[i] == s[s.len() - trim_start(s).len() + i]);
    }
    let u = trim_start(s);
    lemma_trim_end_ends(u);
    assert forall|i: int| 0 <= i < trim(s).len() implies #[trigger] trim(s)[i] != '\n' by {
        assert(trim_end(u)[i] == u[i]);
    }
}

proof fn lemma_trim_start_suffix(s: Seq<char>)
    ensures
        trim_start(s).len() <= s.len(),
        forall|i: int|
            0 <= i < trim_start(s).len() ==> #[trigger] trim_start(s)[i] == s[s.len()
                - trim_start(s).len() + i],
    decreases s.len(),
{
    if s.len() > 0 && is_ws(s[0]) {
        lemma_trim_start_suffix(s.drop_first());
    }
}

/// A clean line comes back unchanged from trimming and normalising.
proof fn lemma_clean_line_kept(l: Seq<char>)
    requires
        clean_line(l),
    ensures
        trim(l) == l,
        normalized(l) == l,
{
    lemma_trim_keeps(l);
    if !is_table_row(l) {
        lemma_collapse_keeps(l);
    }
}

/// What a non-blank physical line becomes is a clean line.
proof fn lemma_normalized_clean(line: Seq<char>)
    requires
        no_newline(line),
        trim(line).len() > 0,
    ensures
        clean_line(normalized(trim(line))),
        is_table_row(trim(line)) ==> normalized(trim(line)) == trim(line),
        !is_table_row(trim(line)) ==> single_spaced(normalized(trim(line))),
{
    let t = trim(line);
    lemma_trim_visible(line);
    lemma_no_newline_trim(line);
    if !is_table_row(t) {
        lemma_collapse_single_spaced(t);
        let n = collapse(t);
        assert forall|i: int| 0 <= i < n.len() implies #[trigger] n[i] != '\n' by {
            if n[i] == '\n' {
                assert(is_ws(n[i]));
            }
        }
    }
}

/// Taking one more physical line keeps the paragraph under way settled.
proof fn lemma_take_line_settled(paras: Seq<Seq<char>>, cur: Seq<char>, line: Seq<char>)
    requires
        cur.len() == 0 || settled(cur),
        no_newline(line),
    ensures
        take_line(paras, cur, line).1.len() == 0 || settled(take_line(paras, cur, line).1),
{
    let t = trim(line);
    if t.len() > 0 {
        lemma_normalized_clean(line);
        let norm = normalized(t);
        lemma_clean_line_kept(norm);
        let empty_paras = Seq::<Seq<char>>::empty();
        if cur.len() == 0 {
            lemma_split_one(norm);
            assert(split_on(norm, '\n').drop_last() =~= Seq::<Seq<char>>::empty());
            assert(take_lines(seq![norm]) == take_line(empty_paras, Seq::empty(), norm)) by {
                let e = Seq::<Seq<char>>::empty();
                assert(seq![norm].drop_last() =~= e);
                assert(take_from((empty_paras, Seq::<char>::empty()), e) == (
                    empty_paras,
                    Seq::<char>::empty(),
                ));
            }
        } else if is_table_row(t) || starts_item(norm) || ends_sentence(cur) {
            let c2 = cur + seq!['\n'] + norm;
            lemma_split_concat(cur, norm);
            lemma_split_one(norm);
            let p = split_on(cur, '\n');
            let p2 = split_on(c2, '\n');
            assert(p2 == p + seq![norm]);
            assert(p2.drop_last() =~= p);
            assert(p2.last() == norm);
            assert(take_lines(p2) == take_line(empty_paras, cur, norm));
        } else {
            let p = split_on(cur, '\n');
            let l = p.last();
            let d = seq![' '] + norm;
            assert(no_newline(d)) by {
                assert forall|i: int| 0 <= i < d.len() implies #[trigger] d[i] != '\n' by {
                    if i > 0 {
                        assert(d[i] == norm[i - 1]);
                    }
                }
            }
            let c2 = cur + d;
            assert(c2 =~= cur + seq![' '] + norm);
            lemma_split_extend(cur, d);
            let p2 = split_on(c2, '\n');
            let l2 = l + d;
            assert(p2 == p.update(p.len() - 1, l2));
            assert(p2.drop_last() =~= p.drop_last());
            assert(p2.last() == l2);
            let before = take_lines(p.drop_last());
            assert(l2 =~= l + seq![' '] + norm);
            assert(clean_line(l2)) by {
                assert(l2[0] == l[0]);
                assert(l2.last() == norm.last());
                assert forall|i: int| 0 <= i < l2.len() implies #[trigger] l2[i] != '\n' by {
                    if i < l.len() {
                        assert(l2[i] == l[i]);
                    } else {
                        assert(l2[i] == d[i - l.len()]);
                    }
                }
                if is_table_row(l) {
                    lemma_seg_count_extend(l, d, false);
                } else {
                    lemma_single_spaced_join(l, norm);
                }
            }
            lemma_clean_line_kept(l2);
            if before.1.len() > 0 {
                if is_table_row(l) {
                    lemma_seg_count_extend(l, d, false);
                }
                if starts_item(l) {
                    lemma_starts_item_extend(l, d);
                }
                assert(c2 =~= before.1 + seq!['\n'] + l2);
            } else {
                assert(c2 =~= l2);
            }
            assert(take_lines(p2) == take_line(before.0, before.1, l2));
        }
    }
}

/// Taking physical lines leaves every paragraph settled.
proof fn lemma_take_settled(ls: Seq<Seq<char>>)
    requires
        forall|k: int| 0 <= k < ls.len() ==> no_newline(#[trigger] ls[k]),
    ensures
        take_lines(ls).1.len() == 0 || settled(take_lines(ls).1),
        forall|k: int|
            0 <= k < take_lines(ls).0.len() ==> settled(#[trigger] take_lines(ls).0[k]),
    decreases ls.len(),
{
    if ls.len() > 0 {
        let d = ls.drop_last();
        assert forall|k: int| 0 <= k < d.len() implies no_newline(#[trigger] d[k]) by {
            assert(d[k] == ls[k]);
        }
        lemma_take_settled(d);
        let (paras, cur) = take_lines(d);
        assert(take_lines(ls) == take_line(paras, cur, ls.last()));
        lemma_take_line_settled(paras, cur, ls.last());
        let r = take_line(paras, cur, ls.last());
        assert forall|k: int| 0 <= k < r.0.len() implies settled(#[trigger] r.0[k]) by {
            if k < paras.len() {
                assert(r.0[k] == paras[k]);
            }
        }
    }
}

/// Taking the lines of settled paragraphs joined by blank lines gives the
/// paragraphs back.
proof fn lemma_retake(all: Seq<Seq<char>>)
    requires
        all.len() >= 1,
        forall|k: int| 0 <= k < all.len() ==> settled(#[trigger] all[k]),
    ensures
        take_lines(split_on(join(all, "\n\n"@), '\n')) == (all.drop_last(), all.last()),
    decreases all.len(),
{
    if all.len() == 1 {
        assert(all[0] == all.last());
        assert(all.drop_last() =~= Seq::<Seq<char>>::empty());
    } else {
        let a = all.drop_last();
        assert forall|k: int| 0 <= k < a.len() implies settled(#[trigger] a[k]) by {
            assert(a[k] == all[k]);
        }
        lemma_retake(a);
        let j = join(a, "\n\n"@);
        let last = all.last();
        assert(settled(last)) by {
            assert(all[all.len() - 1] == last);
        }
        reveal_strlit("\n\n");
        let y = join(all, "\n\n"@);
        assert(y == j + "\n\n"@ + last);
        let tail = seq!['\n'] + last;
        assert(y =~= j + seq!['\n'] + tail);
        lemma_split_concat(j, tail);
        assert(tail =~= Seq::<char>::empty() + seq!['\n'] + last);
        lemma_split_concat(Seq::<char>::empty(), last);
        let blank = seq![Seq::<char>::empty()];
        assert(split_on(Seq::<char>::empty(), '\n') == blank);
        let sj = split_on(j, '\n');
        let sl = split_on(last, '\n');
        assert(split_on(y, '\n') == sj + (blank + sl));
        assert(sj + (blank + sl) =~= (sj + blank) + sl);
        let init = (Seq::<Seq<char>>::empty(), Seq::<char>::empty());
        lemma_take_concat(init, sj + blank, sl);
        lemma_take_concat(init, sj, blank);
        let st1 = take_from(init, sj);
        assert(st1 == (a.drop_last(), a.last()));
        assert(a.last() == all[all.len() - 2]);
        assert(take_from(st1, blank) == take_line(st1.0, st1.1, Seq::<char>::empty())) by {
            let e = Seq::<Seq<char>>::empty();
            assert(blank.drop_last() =~= e);
            assert(take_from(st1, e) == st1);
        }
        assert(trim(Seq::<char>::empty()) =~= Seq::<char>::empty());
        assert(a.drop_last().push(a.last()) =~= a);
        let st2 = take_from(st1, blank);
        assert(st2 == (a, Seq::<char>::empty()));
        lemma_take_keeps_done(a, Seq::<char>::empty(), sl);
        assert(a + Seq::<Seq<char>>::empty() =~= a);
    }
}

/// Cleaning is idempotent: cleaning cleaned text changes nothing.
pub proof fn lemma_cleanup_idempotent(x: Seq<char>)
    ensures
        cleanup(cleanup(x)) == cleanup(x),
{
    if x.len() > 0 {
        let ls = split_on(x, '\n');
        lemma_split_pieces(x);
        lemma_take_settled(ls);
        let (paras, cur) = take_lines(ls);
        let all = if cur.len() > 0 {
            paras.push(cur)
        } else {
            paras
        };
        assert forall|k: int| 0 <= k < all.len() implies settled(#[trigger] all[k]) by {
            if k < paras.len() {
                assert(all[k] == paras[k]);
            }
        }
        let y = join(all, "\n\n"@);
        assert(cleanup(x) == y);
        if all.len() == 0 {
            assert(y =~= Seq::<char>::empty());
        } else {
            lemma_retake(all);
            let last = all.last();
            assert(settled(last)) by {
                assert(all[all.len() - 1] == last);
            }
            assert(y.len() > 0) by {
                if all.len() == 1 {
                    assert(y == all[0]);
                } else {
                    reveal_strlit("\n\n");
                    assert(y == join(all.drop_last(), "\n\n"@) + "\n\n"@ + last);
                }
            }
            assert(all.drop_last().push(last) =~= all);
        }
    }
}

} // verus!
