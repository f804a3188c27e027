//! The tag parser: reads an entry's text into its tree, production by
//! production as the grammar gives them.

use vstd::prelude::*;
use crate::grammar::{
    Inline, block, block_parser, blockquote, boxed_plain, classify, div_open, enclosed_run,
    enclosed_until, gram_markers, inline_parser, inline_tag, inline_tags, is_gram_marker_spec,
    many0, many1, opens_with_marker, para_parser, para_tag, parse_entry_spec, toc_link_spec,
};
use crate::hex::parse_hex_id;
use crate::roundtrip::{lemma_block, lemma_inline_tag, lemma_para_tag};
use crate::tags::{
    EntryTag, ParaTag, SimpleTag, TaggedEntry, block_views, inline_views, para_views,
};
use crate::text::{chars_of, eat, find_at, has_at, lemma_first_at, scan_run, string_of};

verus! {

/// Reads `open`, a run of ordinary text and `close`.
pub fn read_enclosed_run(buf: &[char], pos: usize, open: &str, square: bool, close: &str) -> (r:
    Option<(String, usize)>)
    ensures
        match r {
            Some((text, e)) => enclosed_run(buf@, pos as int, open@, square, close@) == Some(
                (text@, e as int),
            ),
            None => enclosed_run(buf@, pos as int, open@, square, close@) is None,
        },
{
    let a = match eat(buf, pos, open) {
        Some(a) => a,
        None => {
            return None;
        },
    };
    let b = match scan_run(buf, a, square) {
        Some(b) => b,
        None => {
            return None;
        },
    };
    let e = match eat(buf, b, close) {
        Some(e) => e,
        None => {
            return None;
        },
    };
    Some((string_of(buf, a, b), e))
}

/// Reads `open`, anything up to the first `close`, and `close`.
pub fn read_enclosed_until(buf: &[char], pos: usize, open: &str, close: &str) -> (r: Option<
    (String, usize),
>)
    ensures
        match r {
            Some((text, e)) => enclosed_until(buf@, pos as int, open@, close@) == Some(
                (text@, e as int),
            ),
            None => enclosed_until(buf@, pos as int, open@, close@) is None,
        },
{
    let a = match eat(buf, pos, open) {
        Some(a) => a,
        None => {
            return None;
        },
    };
    let (b, e) = match find_at(buf, a, close) {
        Some(r) => r,
        None => {
            return None;
        },
    };
    proof {
        lemma_first_at(buf@, a as int, close@);
    }
    Some((string_of(buf, a, b), e))
}

/// Reads a link to another entry: the target's identifier and the text shown.
pub fn toc_link(buf: &[char], pos: usize) -> (r: Option<((u32, String), usize)>)
    ensures
        match r {
            Some(((id, text), e)) => toc_link_spec(buf@, pos as int) matches Some(((i, t), end, _)) && i
                == id && t == text@ && end == e,
            None => toc_link_spec(buf@, pos as int) is None,
        },
{
    let a = match eat(buf, pos, "<a href=\"#MBP_TOC_") {
        Some(a) => a,
        None => {
            return None;
        },
    };
    let (id, b) = match parse_hex_id(buf, a) {
        Some(r) => r,
        None => {
            return None;
        },
    };
    let c = match eat(buf, b, "\">") {
        Some(c) => c,
        None => {
            return None;
        },
    };
    let d = match scan_run(buf, c, false) {
        Some(d) => d,
        None => {
            return None;
        },
    };
    let e = match eat(buf, d, "</a>") {
        Some(e) => e,
        None => {
            return None;
        },
    };
    Some(((id, string_of(buf, c, d)), e))
}

/// Reads `[`, text or nothing, `]`.
pub fn read_boxed_plain(buf: &[char], pos: usize) -> (r: Option<(SimpleTag, usize)>)
    ensures
        match r {
            Some((t, e)) => boxed_plain(buf@, pos as int) matches Some((m, end, _)) && m == t@ && end
                == e,
            None => boxed_plain(buf@, pos as int) is None,
        },
{
    let a = match eat(buf, pos, "[") {
        Some(a) => a,
        None => {
            return None;
        },
    };
    let b = match scan_run(buf, a, true) {
        Some(b) => b,
        None => a,
    };
    let e = match eat(buf, b, "]") {
        Some(e) => e,
        None => {
            return None;
        },
    };
    Some((SimpleTag::BoxedPlain(string_of(buf, a, b)), e))
}

/// Reads one inline tag at `pos`: the first alternative that `ctx` admits
/// and that matches.
pub fn parse_inline_tag(buf: &[char], pos: usize, ctx: Inline) -> (r: Option<(SimpleTag, usize)>)
    ensures
        match r {
            Some((t, e)) => inline_tag(ctx, buf@, pos as int) matches Some((m, end, _)) && m == t@
                && end == e,
            None => inline_tag(ctx, buf@, pos as int) is None,
        },
{
    let square = match ctx {
        Inline::Quote => false,
        _ => true,
    };
    if pos > buf.len() {
        proof {
            lemma_inline_tag(ctx, buf@, pos as int);
        }
        return None;
    }
    match scan_run(buf, pos, square) {
        Some(e) => {
            return Some((SimpleTag::Plain(string_of(buf, pos, e)), e));
        },
        None => {},
    }
    match read_enclosed_until(buf, pos, "<i>", "</i>") {
        Some((text, e)) => {
            return Some((SimpleTag::Emph(text), e));
        },
        None => {},
    }
    if let Inline::Quote = ctx {
        return match eat(buf, pos, "<br>\n") {
            Some(e) => Some((SimpleTag::BreakTag, e)),
            None => None,
        };
    }
    match read_enclosed_run(buf, pos, "<b>", false, "</b>") {
        Some((text, e)) => {
            return Some((SimpleTag::Bold(text), e));
        },
        None => {},
    }
    match toc_link(buf, pos) {
        Some(((id, text), e)) => {
            return Some((SimpleTag::WordRef(id, text), e));
        },
        None => {},
    }
    match read_enclosed_run(buf, pos, "<small><b>", false, "</b></small>") {
        Some((text, e)) => {
            return Some((SimpleTag::SmallB(text), e));
        },
        None => {},
    }
    if let Inline::Simple = ctx {
        match eat(buf, pos, "<br>\n") {
            Some(e) => {
                return Some((SimpleTag::BreakTag, e));
            },
            None => {},
        }
    }
    match read_boxed_plain(buf, pos) {
        Some(r) => {
            return Some(r);
        },
        None => {},
    }
    if let Inline::Boxed = ctx {
        return None;
    }
    match read_enclosed_run(buf, pos, "<sub>", false, "</sub>") {
        Some((text, e)) => {
            return Some((SimpleTag::Sub(text), e));
        },
        None => {},
    }
    match read_enclosed_run(buf, pos, "<sup>", false, "</sup>") {
        Some((text, e)) => Some((SimpleTag::Sup(text), e)),
        None => None,
    }
}

/// Reads one or more inline tags from `pos` on.
pub fn parse_inline_tags(buf: &[char], pos: usize, ctx: Inline) -> (r: Option<(Vec<SimpleTag>, usize)>)
    ensures
        match r {
            Some((tags, e)) => inline_tags(ctx, buf@, pos as int) matches Some((ms, end, _)) && ms
                == inline_views(tags@) && end == e,
            None => inline_tags(ctx, buf@, pos as int) is None,
        },
{
    let ghost s = buf@;
    let ghost p = inline_parser(ctx);
    let mut tags: Vec<SimpleTag> = Vec::new();
    let mut cur: usize = pos;
    if pos > buf.len() {
        proof {
            lemma_inline_tag(ctx, s, pos as int);
        }
        return None;
    }
    loop
        invariant
            s == buf@,
            p == inline_parser(ctx),
            pos <= cur <= buf.len(),
            many0(p, s, pos as int).0 == inline_views(tags@) + many0(p, s, cur as int).0,
            many0(p, s, pos as int).1 == many0(p, s, cur as int).1,
        ensures
            many0(p, s, cur as int).0.len() == 0,
            many0(p, s, cur as int).1 == cur,
        decreases buf.len() - cur,
    {
        match parse_inline_tag(buf, cur, ctx) {
            Some((t, e)) => {
                proof {
                    lemma_inline_tag(ctx, s, cur as int);
                }
                if e <= cur {
                    break;
                }
                proof {
                    let rest = many0(p, s, e as int).0;
                    assert(inline_views(tags@.push(t)) =~= inline_views(tags@).push(t@));
                    assert(inline_views(tags@) + (seq![t@] + rest) =~= inline_views(tags@).push(t@)
                        + rest);
                }
                tags.push(t);
                cur = e;
            },
            None => {
                break;
            },
        }
    }
    assert(inline_views(tags@) + many0(p, s, cur as int).0 =~= inline_views(tags@));
    if tags.len() == 0 {
        None
    } else {
        Some((tags, cur))
    }
}

/// The grammatical abbreviation at place `i` of the list.
fn gram_marker(i: usize) -> (m: &'static str)
    requires
        i < 23,
    ensures
        gram_markers().len() == 23,
        m@ == gram_markers()[i as int],
{
    match i {
        0 => "compar.",
        1 => "Compar.",
        2 => "dat.",
        3 => "imp.",
        4 => "inf.",
        5 => "nom.",
        6 => "obj.",
        7 => "obs.",
        8 => "Obs.",
        9 => "p. p.",
        10 => "p. pr.",
        11 => "pl.",
        12 => "poss.",
        13 => "Poss.",
        14 => "pres.",
        15 => "pret.",
        16 => "sing.",
        17 => "Sing.",
        18 => "superl.",
        19 => "Superl.",
        20 => "v. i.",
        21 => "v. t.",
        _ => "vb. n.",
    }
}

/// Tells whether `text` starts with a grammatical abbreviation.
pub fn is_gram_marker(text: &str) -> (b: bool)
    ensures
        b == is_gram_marker_spec(text@),
{
    let chars = chars_of(text);
    let mut i: usize = 0;
    while i < 23
        invariant
            i <= 23,
            gram_markers().len() == 23,
            chars@ == text@,
            forall|j: int| 0 <= j < i ==> !has_at(text@, 0, #[trigger] gram_markers()[j]),
        decreases 23 - i,
    {
        if eat(chars.as_slice(), 0, gram_marker(i)).is_some() {
            return true;
        }
        i = i + 1;
    }
    false
}

/// Makes a bracketed annotation of its tags: a grammatical one where the
/// first tag is emphasised text that starts with a grammatical abbreviation,
/// a plain one otherwise.
pub fn classify_boxed(tags: Vec<SimpleTag>) -> (r: ParaTag)
    ensures
        r@ == classify(inline_views(tags@)),
        opens_with_marker(inline_views(tags@)) ==> r == ParaTag::BoxedGrammar(tags),
        !opens_with_marker(inline_views(tags@)) ==> r == ParaTag::Boxed(tags),
{
    let gram = tags.len() > 0 && match &tags[0] {
        SimpleTag::Emph(text) => is_gram_marker(text.as_str()),
        _ => false,
    };
    if gram {
        ParaTag::BoxedGrammar(tags)
    } else {
        ParaTag::Boxed(tags)
    }
}

/// Reads one paragraph tag at `pos`: a run of inline tags, else a bracketed
/// annotation, else a sub-entry marker.
pub fn parse_para_tag(buf: &[char], pos: usize) -> (r: Option<(ParaTag, usize)>)
    ensures
        match r {
            Some((t, e)) => para_tag(buf@, pos as int) matches Some((m, end, _)) && m == t@ && end == e,
            None => para_tag(buf@, pos as int) is None,
        },
{
    match parse_inline_tags(buf, pos, Inline::Simple) {
        Some((tags, e)) => {
            return Some((ParaTag::Simple(tags), e));
        },
        None => {},
    }
    match eat(buf, pos, "[") {
        Some(a) => match parse_inline_tags(buf, a, Inline::Boxed) {
            Some((tags, b)) => match eat(buf, b, "]") {
                Some(e) => {
                    return Some((classify_boxed(tags), e));
                },
                None => {},
            },
            None => {},
        },
        None => {},
    }
    match read_enclosed_run(buf, pos, "<strong>", false, "</strong>") {
        Some((text, e)) => Some((ParaTag::Strong(text), e)),
        None => None,
    }
}

/// Reads one or more paragraph tags from `pos` on.
pub fn parse_para_tags(buf: &[char], pos: usize) -> (r: Option<(Vec<ParaTag>, usize)>)
    ensures
        match r {
            Some((tags, e)) => many1(para_parser(), buf@, pos as int) matches Some((ms, end, _)) && ms
                == para_views(tags@) && end == e,
            None => many1(para_parser(), buf@, pos as int) is None,
        },
{
    let ghost s = buf@;
    let ghost p = para_parser();
    let mut tags: Vec<ParaTag> = Vec::new();
    let mut cur: usize = pos;
    if pos > buf.len() {
        proof {
            lemma_para_tag(s, pos as int);
        }
        return None;
    }
    loop
        invariant
            s == buf@,
            p == para_parser(),
            pos <= cur <= buf.len(),
            many0(p, s, pos as int).0 == para_views(tags@) + many0(p, s, cur as int).0,
            many0(p, s, pos as int).1 == many0(p, s, cur as int).1,
        ensures
            many0(p, s, cur as int).0.len() == 0,
            many0(p, s, cur as int).1 == cur,
        decreases buf.len() - cur,
    {
        match parse_para_tag(buf, cur) {
            Some((t, e)) => {
                proof {
                    lemma_para_tag(s, cur as int);
                }
                if e <= cur {
                    break;
                }
                proof {
                    let rest = many0(p, s, e as int).0;
                    assert(para_views(tags@.push(t)) =~= para_views(tags@).push(t@));
                    assert(para_views(tags@) + (seq![t@] + rest) =~= para_views(tags@).push(t@) + rest);
                }
                tags.push(t);
                cur = e;
            },
            None => {
                break;
            },
        }
    }
    assert(para_views(tags@) + many0(p, s, cur as int).0 =~= para_views(tags@));
    if tags.len() == 0 {
        None
    } else {
        Some((tags, cur))
    }
}

/// Reads a quoted passage at `pos`.
pub fn parse_blockquote(buf: &[char], pos: usize) -> (r: Option<(EntryTag, usize)>)
    ensures
        match r {
            Some((t, e)) => blockquote(buf@, pos as int) matches Some((m, end, _)) && m == t@ && end
                == e,
            None => blockquote(buf@, pos as int) is None,
        },
{
    let a = match eat(buf, pos, "<blockquote>\n") {
        Some(a) => a,
        None => {
            return None;
        },
    };
    let b = match eat(buf, a, "<p>") {
        Some(b) => b,
        None => {
            return None;
        },
    };
    let (tags, c) = match parse_inline_tags(buf, b, Inline::Quote) {
        Some(r) => r,
        None => {
            return None;
        },
    };
    let d = match eat(buf, c, "</p>\n") {
        Some(d) => d,
        None => {
            return None;
        },
    };
    let (author, after) = match read_enclosed_run(buf, d, "\u{2015}<i>", false, "</i>") {
        Some((name, e)) => (Some(name), e),
        None => (None, d),
    };
    let e = match eat(buf, after, "</blockquote>\n") {
        Some(e) => e,
        None => {
            return None;
        },
    };
    Some((EntryTag::Blockquote(tags, author), e))
}

/// Reads one block at `pos`: a paragraph, else preformatted text, else a
/// quoted passage, else a bare newline.
pub fn parse_block(buf: &[char], pos: usize) -> (r: Option<(EntryTag, usize)>)
    ensures
        match r {
            Some((t, e)) => block(buf@, pos as int) matches Some((m, end, _)) && m == t@ && end == e,
            None => block(buf@, pos as int) is None,
        },
{
    match eat(buf, pos, "<p>") {
        Some(a) => match parse_para_tags(buf, a) {
            Some((tags, b)) => match eat(buf, b, "</p>\n") {
                Some(e) => {
                    return Some((EntryTag::Para(tags), e));
                },
                None => {},
            },
            None => {},
        },
        None => {},
    }
    match read_enclosed_until(buf, pos, "<pre>", "</pre>") {
        Some((text, e)) => {
            return Some((EntryTag::Pre(text), e));
        },
        None => {},
    }
    match parse_blockquote(buf, pos) {
        Some(r) => {
            return Some(r);
        },
        None => {},
    }
    match eat(buf, pos, "\n") {
        Some(e) => Some((EntryTag::LineBreak, e)),
        None => None,
    }
}

/// Reads one or more blocks from `pos` on.
pub fn parse_blocks(buf: &[char], pos: usize) -> (r: Option<(Vec<EntryTag>, usize)>)
    ensures
        match r {
            Some((tags, e)) => many1(block_parser(), buf@, pos as int) matches Some((ms, end, _)) && ms
                == block_views(tags@) && end == e,
            None => many1(block_parser(), buf@, pos as int) is None,
        },
{
    let ghost s = buf@;
    let ghost p = block_parser();
    let mut tags: Vec<EntryTag> = Vec::new();
    let mut cur: usize = pos;
    if pos > buf.len() {
        proof {
            lemma_block(s, pos as int);
        }
        return None;
    }
    loop
        invariant
            s == buf@,
            p == block_parser(),
            pos <= cur <= buf.len(),
            many0(p, s, pos as int).0 == block_views(tags@) + many0(p, s, cur as int).0,
            many0(p, s, pos as int).1 == many0(p, s, cur as int).1,
        ensures
            many0(p, s, cur as int).0.len() == 0,
            many0(p, s, cur as int).1 == cur,
        decreases buf.len() - cur,
    {
        match parse_block(buf, cur) {
            Some((t, e)) => {
                proof {
                    lemma_block(s, cur as int);
                }
                if e <= cur {
                    break;
                }
                proof {
                    let rest = many0(p, s, e as int).0;
                    assert(block_views(tags@.push(t)) =~= block_views(tags@).push(t@));
                    assert(block_views(tags@) + (seq![t@] + rest) =~= block_views(tags@).push(t@)
                        + rest);
                }
                tags.push(t);
                cur = e;
            },
            None => {
                break;
            },
        }
    }
    assert(block_views(tags@) + many0(p, s, cur as int).0 =~= block_views(tags@));
    if tags.len() == 0 {
        None
    } else {
        Some((tags, cur))
    }
}

/// Reads the opening marker of an entry: the identifier and the headword.
pub fn parse_div_open(buf: &[char], pos: usize) -> (r: Option<((u32, String), usize)>)
    ensures
        match r {
            Some(((id, word), e)) => div_open(buf@, pos as int) matches Some(((i, w), end, _)) && i
                == id && w == word@ && end == e,
            None => div_open(buf@, pos as int) is None,
        },
{
    let a = match eat(buf, pos, "<div id=\"MBP_TOC_") {
        Some(a) => a,
        None => {
            return None;
        },
    };
    let (id, b) = match parse_hex_id(buf, a) {
        Some(r) => r,
        None => {
            return None;
        },
    };
    let c = match eat(buf, b, "\" data-ascii=\"") {
        Some(c) => c,
        None => {
            return None;
        },
    };
    let (d, e) = match find_at(buf, c, "\">\n") {
        Some(r) => r,
        None => {
            return None;
        },
    };
    proof {
        lemma_first_at(buf@, c as int, "\">\n"@);
    }
    Some(((id, string_of(buf, c, d)), e))
}

/// Reads `buf` as one entry, from its opening marker to its closing marker.
pub fn parse_entry_chars(buf: &[char]) -> (r: Option<TaggedEntry>)
    ensures
        match r {
            Some(t) => parse_entry_spec(buf@) == Some(t@),
            None => parse_entry_spec(buf@) is None,
        },
{
    let ((tocid, word), a) = match parse_div_open(buf, 0) {
        Some(r) => r,
        None => {
            return None;
        },
    };
    let (tags, b) = match parse_blocks(buf, a) {
        Some(r) => r,
        None => {
            return None;
        },
    };
    match eat(buf, b, "</div>\n") {
        Some(e) => if e == buf.len() {
            Some(TaggedEntry { tocid, tags, word })
        } else {
            None
        },
        None => None,
    }
}

/// Parses the text of one entry into its tree. Text that is not an entry from
/// end to end comes back whole, as the error.
pub fn parse_entry(span: &str) -> (r: Result<TaggedEntry, String>)
    ensures
        match r {
            Ok(t) => parse_entry_spec(span@) == Some(t@),
            Err(raw) => parse_entry_spec(span@) is None && raw@ == span@,
        },
{
    let buf = chars_of(span);
    match parse_entry_chars(buf.as_slice()) {
        Some(t) => Ok(t),
        None => Err(span.to_owned()),
    }
}

} // verus!
