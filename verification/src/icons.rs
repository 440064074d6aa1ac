//! The path data of the interface's SVG icons: the `d` attributes of their `<path>`
//! tags, split into the primary and secondary layers of duotone icons.

use vstd::prelude::*;
use crate::text::{char_len, owned, push_char, push_str, slice_chars, starts_with, str_eq};
use crate::volumes::spec_contains;

verus! {

/// The two layers of an icon's drawing.
#[derive(Debug, Clone)]
pub struct IconPaths {
    pub primary_path: String,
    pub secondary_path: String,
}

/// The first index at or after `from` where `pat` occurs in `s`, or -1.
pub open spec fn first_at(s: Seq<char>, pat: Seq<char>, from: int) -> int
    decreases s.len() - from,
{
    if from < 0 || from + pat.len() > s.len() {
        -1
    } else if pat.len() == 0 || s.subrange(from, from + pat.len()) == pat {
        from
    } else {
        first_at(s, pat, from + 1)
    }
}

pub proof fn lemma_first_at(s: Seq<char>, pat: Seq<char>, from: int)
    ensures
        first_at(s, pat, from) >= 0 ==> from <= first_at(s, pat, from) && first_at(s, pat, from) + pat.len()
            <= s.len() && s.subrange(first_at(s, pat, from), first_at(s, pat, from) + pat.len()) == pat,
        first_at(s, pat, from) == -1 || first_at(s, pat, from) >= 0,
    decreases s.len() - from,
{
    if !(from < 0 || from + pat.len() > s.len()) && pat.len() > 0 && s.subrange(from, from + pat.len()) != pat {
        lemma_first_at(s, pat, from + 1);
    }
}

/// `str::find` from an offset: where `pat` first occurs at or after `from`.
fn find_from(s: &str, pat: &str, from: usize) -> (r: Option<usize>)
    requires
        from <= s@.len(),
        pat@.len() > 0,
    ensures
        match r {
            Some(i) => i == first_at(s@, pat@, from as int),
            None => first_at(s@, pat@, from as int) == -1,
        },
{
    let n = char_len(s);
    let m = char_len(pat);
    let mut i = from;
    while i <= n && m <= n - i
        invariant
            n == s@.len(),
            m == pat@.len(),
            m > 0,
            from <= i <= n + 1,
            first_at(s@, pat@, i as int) == first_at(s@, pat@, from as int),
        decreases n + 1 - i,
    {
        if starts_with(slice_chars(s, i, n), pat) {
            assert(s@.subrange(i as int, n as int).subrange(0, m as int) == s@.subrange(i as int, i + m));
            return Some(i);
        }
        assert(s@.subrange(i as int, n as int).subrange(0, m as int) == s@.subrange(i as int, i + m));
        i = i + 1;
    }
    None
}

/// The value of the first `attr="..."` in `source`: the text after the first
/// occurrence of `attr="` up to the next double quote.
pub open spec fn spec_extract_attr(source: Seq<char>, attr: Seq<char>) -> Option<Seq<char>> {
    let needle = attr + seq!['=', '"'];
    let start = first_at(source, needle, 0);
    if start < 0 {
        None
    } else {
        let v = start + needle.len();
        let end = first_at(source, seq!['"'], v);
        if end < 0 {
            None
        } else {
            Some(source.subrange(v, end))
        }
    }
}

pub fn extract_attr(source: &str, attr: &str) -> (r: Option<String>)
    ensures
        match r {
            Some(v) => spec_extract_attr(source@, attr@) == Some(v@),
            None => spec_extract_attr(source@, attr@) is None,
        },
{
    let mut needle = owned(attr);
    push_char(&mut needle, '=');
    push_char(&mut needle, '"');
    assert(needle@ == attr@ + seq!['=', '"']);
    let needle_str = needle.as_str();
    assert(needle_str@ == needle@);
    assert(needle@.len() > 0);
    let start = match find_from(source, needle_str, 0) {
        Some(s) => s,
        None => {
            return None;
        },
    };
    proof {
        lemma_first_at(source@, needle@, 0);
        reveal_strlit("\"");
        assert("\""@ =~= seq!['"']);
    }
    let source_len = char_len(source);
    assert(start + needle@.len() <= source_len);
    let v = start + char_len(needle_str);
    let end = match find_from(source, "\"", v) {
        Some(e) => e,
        None => {
            proof {
                reveal_strlit("\"");
                assert("\""@ =~= seq!['"']);
            }
            return None;
        },
    };
    proof {
        reveal_strlit("\"");
        assert("\""@ =~= seq!['"']);
        lemma_first_at(source@, seq!['"'], v as int);
    }
    Some(owned(slice_chars(source, v, end)))
}

/// The `<path ...>` tags of an SVG text from offset `from`, in order: each from
/// `<path` to the next `>`; the search stops at a tag that is not closed.
pub open spec fn spec_path_tags(c: Seq<char>, from: int) -> Seq<Seq<char>>
    decreases c.len() - from,
{
    let st = first_at(c, "<path"@, from);
    if from < 0 || st < 0 {
        seq![]
    } else {
        let e = first_at(c, seq!['>'], st);
        if e < 0 {
            seq![]
        } else {
            proof {
                lemma_first_at(c, "<path"@, from);
                lemma_first_at(c, seq!['>'], st);
            }
            seq![c.subrange(st, e + 1)] + spec_path_tags(c, e + 1)
        }
    }
}

pub fn extract_path_tags(content: &str) -> (r: Vec<String>)
    ensures
        r@.map_values(|t: String| t@) == spec_path_tags(content@, 0),
{
    let n = char_len(content);
    let mut tags: Vec<String> = Vec::new();
    let mut from: usize = 0;
    proof {
        reveal_strlit(">");
        assert(">"@ =~= seq!['>']);
        reveal_strlit("<path");
        assert("<path"@ =~= seq!['<', 'p', 'a', 't', 'h']);
    }
    loop
        invariant
            n == content@.len(),
            from <= n,
            ">"@ == seq!['>'],
            "<path"@ == seq!['<', 'p', 'a', 't', 'h'],
            tags@.map_values(|t: String| t@) + spec_path_tags(content@, from as int) == spec_path_tags(content@, 0),
        decreases n - from,
    {
        let st = match find_from(content, "<path", from) {
            Some(s) => s,
            None => {
                assert(spec_path_tags(content@, from as int) == Seq::<Seq<char>>::empty());
                assert(tags@.map_values(|t: String| t@) + Seq::<Seq<char>>::empty() == tags@.map_values(|t: String| t@));
                return tags;
            },
        };
        proof {
            lemma_first_at(content@, "<path"@, from as int);
        }
        let e = match find_from(content, ">", st) {
            Some(e) => e,
            None => {
                assert(spec_path_tags(content@, from as int) == Seq::<Seq<char>>::empty());
                assert(tags@.map_values(|t: String| t@) + Seq::<Seq<char>>::empty() == tags@.map_values(|t: String| t@));
                return tags;
            },
        };
        proof {
            lemma_first_at(content@, seq!['>'], st as int);
        }
        let ghost before = tags@.map_values(|t: String| t@);
        tags.push(owned(slice_chars(content, st, e + 1)));
        assert(tags@.map_values(|t: String| t@) == before.push(content@.subrange(st as int, e + 1)));
        assert(spec_path_tags(content@, from as int) == seq![content@.subrange(st as int, e + 1)] + spec_path_tags(
            content@,
            e + 1,
        ));
        assert(before.push(content@.subrange(st as int, e + 1)) + spec_path_tags(content@, e + 1) == before + (
        seq![content@.subrange(st as int, e + 1)] + spec_path_tags(content@, e + 1)));
        from = e + 1;
    }
}

/// The layers gathered from the first `n` tags: the `d` of the last tag whose class
/// names `fa-primary`, of the last whose class names `fa-secondary`, and, in order,
/// those of the tags of neither class. Tags without `d` are skipped.
pub open spec fn classify(tags: Seq<Seq<char>>) -> (Seq<char>, Seq<char>, Seq<Seq<char>>)
    decreases tags.len(),
{
    if tags.len() == 0 {
        (seq![], seq![], seq![])
    } else {
        let (p, s, u) = classify(tags.drop_last());
        let tag = tags.last();
        match spec_extract_attr(tag, seq!['d']) {
            None => (p, s, u),
            Some(d) => {
                let class = match spec_extract_attr(tag, "class"@) {
                    Some(c) => c,
                    None => seq![],
                };
                if spec_contains(class, "fa-primary"@) {
                    (d, s, u)
                } else if spec_contains(class, "fa-secondary"@) {
                    (p, d, u)
                } else {
                    (p, s, u.push(d))
                }
            },
        }
    }
}

/// The items of `u` joined by single spaces.
pub open spec fn join_spaces(u: Seq<Seq<char>>) -> Seq<char>
    decreases u.len(),
{
    if u.len() == 0 {
        seq![]
    } else if u.len() == 1 {
        u[0]
    } else {
        join_spaces(u.drop_last()) + seq![' '] + u.last()
    }
}

/// The layers of an icon: the primary layer, or, when it is missing or empty, the
/// unclassified paths joined by spaces; and the secondary layer.
pub open spec fn spec_icon_paths(content: Seq<char>) -> (Seq<char>, Seq<char>) {
    let (p, s, u) = classify(spec_path_tags(content, 0));
    if p.len() == 0 && u.len() > 0 {
        (join_spaces(u), s)
    } else {
        (p, s)
    }
}

/// Reads the layers of an SVG icon.
pub fn parse_icon_paths(content: &str) -> (r: IconPaths)
    ensures
        (r.primary_path@, r.secondary_path@) == spec_icon_paths(content@),
{
    let tags = extract_path_tags(content);
    let ghost tv = tags@.map_values(|t: String| t@);
    let mut primary = String::new();
    let mut secondary = String::new();
    let mut unclassified: Vec<String> = Vec::new();
    let mut i: usize = 0;
    proof {
        reveal_strlit("d");
        reveal_strlit("class");
        assert("d"@ =~= seq!['d']);
    }
    while i < tags.len()
        invariant
            0 <= i <= tags@.len(),
            tv == tags@.map_values(|t: String| t@),
            "d"@ == seq!['d'],
            ({
                let (p, s, u) = classify(tv.subrange(0, i as int));
                &&& primary@ == p
                &&& secondary@ == s
                &&& unclassified@.map_values(|t: String| t@) == u
            }),
        decreases tags@.len() - i,
    {
        assert(tv.subrange(0, i + 1).drop_last() == tv.subrange(0, i as int));
        assert(tv.subrange(0, i + 1).last() == tags@[i as int]@);
        let tag = tags[i].as_str();
        match extract_attr(tag, "d") {
            Some(d) => {
                let class = match extract_attr(tag, "class") {
                    Some(c) => c,
                    None => String::new(),
                };
                if crate::volumes::str_contains(class.as_str(), "fa-primary") {
                    primary = d;
                } else if crate::volumes::str_contains(class.as_str(), "fa-secondary") {
                    secondary = d;
                } else {
                    let ghost before = unclassified@.map_values(|t: String| t@);
                    unclassified.push(d);
                    assert(unclassified@.map_values(|t: String| t@) == before.push(unclassified@.last()@));
                }
            },
            None => {},
        }
        i = i + 1;
    }
    assert(tv.subrange(0, tv.len() as int) == tv);
    if char_len(primary.as_str()) == 0 && unclassified.len() > 0 {
        let mut joined = owned(unclassified[0].as_str());
        let mut k: usize = 1;
        let ghost uv = unclassified@.map_values(|t: String| t@);
        assert(uv.subrange(0, 1) == seq![uv[0]]);
        while k < unclassified.len()
            invariant
                1 <= k <= unclassified@.len(),
                uv == unclassified@.map_values(|t: String| t@),
                joined@ == join_spaces(uv.subrange(0, k as int)),
            decreases unclassified@.len() - k,
        {
            push_char(&mut joined, ' ');
            push_str(&mut joined, unclassified[k].as_str());
            assert(uv.subrange(0, k + 1).drop_last() == uv.subrange(0, k as int));
            k = k + 1;
        }
        assert(uv.subrange(0, uv.len() as int) == uv);
        primary = joined;
    }
    IconPaths { primary_path: primary, secondary_path: secondary }
}

/// The text of the width and height of the icon's `viewBox`: its third and fourth
/// whitespace-separated fields, when present.
pub open spec fn spec_viewbox_size(content: Seq<char>) -> Option<(Seq<char>, Seq<char>)> {
    match spec_extract_attr(content, "viewBox"@) {
        Some(v) => crate::volumes::spec_third_and_fourth_fields(v),
        None => None,
    }
}

/// Reads the width and height fields of the icon's `viewBox`, as text.
pub fn viewbox_size(content: &str) -> (r: Option<(String, String)>)
    ensures
        match r {
            Some((w, h)) => spec_viewbox_size(content@) == Some((w@, h@)),
            None => spec_viewbox_size(content@) is None,
        },
{
    match extract_attr(content, "viewBox") {
        Some(v) => crate::volumes::third_and_fourth_fields(v.as_str()),
        None => None,
    }
}

/// The directory of an icon style; unknown styles fall back to `solid`.
pub open spec fn spec_style_dir(style: Seq<char>) -> Seq<char> {
    if style == "regular"@ || style == "light"@ || style == "thin"@ || style == "duotone"@ || style == "brands"@ {
        style
    } else {
        "solid"@
    }
}

pub fn style_to_dir(style: &str) -> (r: &'static str)
    ensures
        r@ == spec_style_dir(style@),
{
    if str_eq(style, "regular") {
        "regular"
    } else if str_eq(style, "light") {
        "light"
    } else if str_eq(style, "thin") {
        "thin"
    } else if str_eq(style, "duotone") {
        "duotone"
    } else if str_eq(style, "brands") {
        "brands"
    } else {
        "solid"
    }
}

} // verus!
