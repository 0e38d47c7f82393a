//! Turning the `[IMAGE:path]` markers of the enriched Markdown into HTML
//! `<img>` tags for an exported copy.
use vstd::prelude::*;
use crate::text::{
    chars_of, extend_chars, lines_chars, lines_of, slice_chars, string_of, trim, trim_chars,
    views,
};

verus! {

/// The path of an image marker line `[IMAGE:path]` (trimmed), if the line
/// is one and the path is not empty.
pub open spec fn image_path(line: Seq<char>) -> Option<Seq<char>> {
    let t = trim(line);
    if t.len() >= 9 && t.subrange(0, 7) == "[IMAGE:"@ && t.last() == ']' {
        Some(t.subrange(7, t.len() - 1))
    } else {
        None
    }
}

fn image_path_chars(line: &Vec<char>) -> (r: Option<Vec<char>>)
    ensures
        match r {
            Some(p) => image_path(line@) == Some(p@),
            None => image_path(line@) is None,
        },
{
    let t = trim_chars(line);
    proof {
        reveal_strlit("[IMAGE:");
    }
    if t.len() >= 9 && t[0] == '[' && t[1] == 'I' && t[2] == 'M' && t[3] == 'A' && t[4] == 'G'
        && t[5] == 'E' && t[6] == ':' && t[t.len() - 1] == ']' {
        assert(t@.subrange(0, 7) =~= "[IMAGE:"@);
        Some(slice_chars(&t, 7, t.len() - 1))
    } else {
        proof {
            if t@.len() >= 9 && t@.subrange(0, 7) == "[IMAGE:"@ {
                assert(t@[0] == t@.subrange(0, 7)[0]);
                assert(t@[1] == t@.subrange(0, 7)[1]);
                assert(t@[2] == t@.subrange(0, 7)[2]);
                assert(t@[3] == t@.subrange(0, 7)[3]);
                assert(t@[4] == t@.subrange(0, 7)[4]);
                assert(t@[5] == t@.subrange(0, 7)[5]);
                assert(t@[6] == t@.subrange(0, 7)[6]);
            }
        }
        None
    }
}

/// The path of an image marker line, or `None` where the line is none or
/// its path is empty.
pub fn extract_image_path(line: &str) -> (r: Option<String>)
    ensures
        match r {
            Some(p) => image_path(line@) == Some(p@),
            None => image_path(line@) is None,
        },
{
    match image_path_chars(&chars_of(line)) {
        Some(p) => Some(string_of(&p)),
        None => None,
    }
}

/// `s` without its trailing slashes.
pub open spec fn strip_slashes(s: Seq<char>) -> Seq<char>
    decreases s.len(),
{
    if s.len() > 0 && s.last() == '/' {
        strip_slashes(s.drop_last())
    } else {
        s
    }
}

/// The number of image marker lines at the front of `ls`.
pub open spec fn image_run(ls: Seq<Seq<char>>) -> nat
    decreases ls.len(),
{
    if ls.len() == 0 || image_path(ls[0]) is None {
        0
    } else {
        1 + image_run(ls.drop_first())
    }
}

/// The width style of each image in a group of `count` images.
pub open spec fn image_style(count: nat) -> Seq<char> {
    if count == 1 {
        "max-width:100%"@
    } else if count == 2 {
        "max-width:calc(50% - 4px)"@
    } else if count == 3 {
        "max-width:calc(33% - 6px)"@
    } else {
        "max-width:calc(25% - 6px)"@
    }
}

pub open spec fn img_tag(base: Seq<char>, path: Seq<char>, style: Seq<char>) -> Seq<char> {
    "<img src=\""@ + base + "/"@ + path + "\" style=\""@ + style
        + ";border-radius:8px;margin:8px 0;\">\n"@
}

/// The `<img>` tags of the marker lines `ls`, one per line.
pub open spec fn img_tags(ls: Seq<Seq<char>>, base: Seq<char>, style: Seq<char>) -> Seq<char>
    decreases ls.len(),
{
    if ls.len() == 0 {
        Seq::empty()
    } else {
        img_tags(ls.drop_last(), base, style) + img_tag(
            base,
            image_path(ls.last())->0,
            style,
        )
    }
}

pub open spec fn flex_open() -> Seq<char> {
    "<div style=\"display:flex;flex-wrap:wrap;gap:8px;margin:8px 0;\">\n"@
}

/// A group of consecutive marker lines as HTML: one tag alone, or several
/// inside a wrapping flex container.
pub open spec fn image_group(ls: Seq<Seq<char>>, base: Seq<char>) -> Seq<char> {
    let tags = img_tags(ls, base, image_style(ls.len()));
    if ls.len() > 1 {
        flex_open() + tags + "</div>\n"@
    } else {
        tags
    }
}

/// The converted lines `ls`, each ending in a newline.
pub open spec fn convert_lines(ls: Seq<Seq<char>>, base: Seq<char>) -> Seq<char>
    decreases ls.len(),
{
    if ls.len() == 0 {
        Seq::empty()
    } else if image_path(ls[0]) is Some {
        let k = image_run(ls) as int;
        image_group(ls.subrange(0, k), base) + if 0 < k <= ls.len() {
            convert_lines(ls.subrange(k, ls.len() as int), base)
        } else {
            Seq::empty()
        }
    } else {
        ls[0] + "\n"@ + convert_lines(ls.drop_first(), base)
    }
}

/// The exported Markdown: lines as they were, except each run of image
/// marker lines, which becomes HTML; without a final newline where the
/// input had none.
pub open spec fn converted(markdown: Seq<char>, base_url: Seq<char>) -> Seq<char> {
    let out = convert_lines(lines_of(markdown), strip_slashes(base_url));
    if !(markdown.len() > 0 && markdown.last() == '\n') && out.len() > 0 && out.last() == '\n' {
        out.drop_last()
    } else {
        out
    }
}

proof fn lemma_image_run_len(ls: Seq<Seq<char>>)
    ensures
        image_run(ls) <= ls.len(),
    decreases ls.len(),
{
    if ls.len() > 0 && image_path(ls[0]) is Some {
        lemma_image_run_len(ls.drop_first());
    }
}

proof fn lemma_image_run(ls: Seq<Seq<char>>, i: int, j: int)
    requires
        0 <= i <= j <= ls.len(),
        forall|m: int| i <= m < j ==> image_path(#[trigger] ls[m]) is Some,
        j == ls.len() || image_path(ls[j]) is None,
    ensures
        image_run(ls.subrange(i, ls.len() as int)) == j - i,
    decreases j - i,
{
    let s = ls.subrange(i, ls.len() as int);
    if i < j {
        assert(s.drop_first() =~= ls.subrange(i + 1, ls.len() as int));
        lemma_image_run(ls, i + 1, j);
    }
}

/// Converts `[IMAGE:path]` marker lines to HTML `<img>` tags that point
/// below `base_url` (its trailing slashes dropped). A lone marker gives one
/// full-width image; consecutive markers are grouped in a flex container,
/// each image sized to share the row.
pub fn convert_image_tags(markdown: &str, base_url: &str) -> (r: String)
    ensures
        r@ == converted(markdown@, base_url@),
{
    let md = chars_of(markdown);
    let mut base = chars_of(base_url);
    while base.len() > 0 && base[base.len() - 1] == '/'
        invariant
            strip_slashes(base@) == strip_slashes(base_url@),
        decreases base.len(),
    {
        base.pop();
    }
    let ghost b = base@;
    let lines = lines_chars(&md);
    let ghost ls = views(lines@);
    let n = lines.len();
    let mut out: Vec<char> = Vec::new();
    let mut i: usize = 0;
    assert(ls.subrange(0, n as int) =~= ls);
    assert(out@ + convert_lines(ls, b) =~= convert_lines(ls, b));
    while i < n
        invariant
            n == lines.len(),
            ls == views(lines@),
            i <= n,
            base@ == b,
            b == strip_slashes(base_url@),
            out@ + convert_lines(ls.subrange(i as int, n as int), b) == convert_lines(ls, b),
        decreases n - i,
    {
        let ghost rest = ls.subrange(i as int, n as int);
        match image_path_chars(&lines[i]) {
            Some(first) => {
                let mut paths: Vec<Vec<char>> = vec![first];
                let mut j: usize = i + 1;
                let mut done = false;
                while j < n && !done
                    invariant
                        n == lines.len(),
                        ls == views(lines@),
                        i < j <= n,
                        paths.len() == j - i,
                        forall|m: int| i <= m < j ==> image_path(#[trigger] ls[m]) is Some,
                        forall|m: int|
                            0 <= m < paths.len() ==> image_path(ls[i + m]) == Some(
                                #[trigger] paths@[m]@,
                            ),
                        done ==> j < n && image_path(ls[j as int]) is None,
                    decreases 2 * (n - j) + if done {
                        0int
                    } else {
                        1int
                    },
                {
                    match image_path_chars(&lines[j]) {
                        Some(p) => {
                            paths.push(p);
                            j = j + 1;
                        },
                        None => {
                            done = true;
                        },
                    }
                }
                proof {
                    lemma_image_run(ls, i as int, j as int);
                }
                let count = paths.len();
                let style = if count == 1 {
                    chars_of("max-width:100%")
                } else if count == 2 {
                    chars_of("max-width:calc(50% - 4px)")
                } else if count == 3 {
                    chars_of("max-width:calc(33% - 6px)")
                } else {
                    chars_of("max-width:calc(25% - 6px)")
                };
                let ghost group = ls.subrange(i as int, j as int);
                assert(rest.subrange(0, (j - i) as int) =~= group);
                assert(rest.subrange((j - i) as int, rest.len() as int) =~= ls.subrange(
                    j as int,
                    n as int,
                ));
                let ghost before = out@;
                if count > 1 {
                    extend_chars(
                        &mut out,
                        &chars_of(
                            "<div style=\"display:flex;flex-wrap:wrap;gap:8px;margin:8px 0;\">\n",
                        ),
                    );
                }
                let ghost tags_start = out@;
                let mut k: usize = 0;
                while k < count
                    invariant
                        n == lines.len(),
                        ls == views(lines@),
                        count == paths.len() == j - i,
                        i < j <= n,
                        k <= count,
                        group == ls.subrange(i as int, j as int),
                        style@ == image_style(count as nat),
                        base@ == b,
                        forall|m: int|
                            0 <= m < paths.len() ==> image_path(ls[i + m]) == Some(
                                #[trigger] paths@[m]@,
                            ),
                        out@ == tags_start + img_tags(group.subrange(0, k as int), b, style@),
                    decreases count - k,
                {
                    assert(group.subrange(0, k as int + 1).drop_last() =~= group.subrange(
                        0,
                        k as int,
                    ));
                    assert(group[k as int] == ls[i + k]);
                    extend_chars(&mut out, &chars_of("<img src=\""));
                    extend_chars(&mut out, &base);
                    extend_chars(&mut out, &chars_of("/"));
                    extend_chars(&mut out, &paths[k]);
                    extend_chars(&mut out, &chars_of("\" style=\""));
                    extend_chars(&mut out, &style);
                    extend_chars(&mut out, &chars_of(";border-radius:8px;margin:8px 0;\">\n"));
                    k = k + 1;
                    assert(out@ =~= tags_start + img_tags(group.subrange(0, k as int), b, style@));
                }
                assert(group.subrange(0, count as int) =~= group);
                if count > 1 {
                    extend_chars(&mut out, &chars_of("</div>\n"));
                }
                assert(out@ =~= before + image_group(group, b));
                assert(rest[0] == ls[i as int]);
                assert(convert_lines(rest, b) == image_group(group, b) + convert_lines(
                    ls.subrange(j as int, n as int),
                    b,
                ));
                assert(out@ + convert_lines(ls.subrange(j as int, n as int), b) =~= before
                    + convert_lines(rest, b));
                i = j;
            },
            None => {
                let ghost before = out@;
                extend_chars(&mut out, &lines[i]);
                extend_chars(&mut out, &chars_of("\n"));
                assert(rest.drop_first() =~= ls.subrange(i as int + 1, n as int));
                assert(rest[0] == ls[i as int]);
                assert(out@ + convert_lines(ls.subrange(i as int + 1, n as int), b) =~= before
                    + convert_lines(rest, b));
                i = i + 1;
            },
        }
    }
    if !(md.len() > 0 && md[md.len() - 1] == '\n') && out.len() > 0 && out[out.len() - 1]
        == '\n' {
        out.pop();
    }
    string_of(&out)
}

} // verus!
