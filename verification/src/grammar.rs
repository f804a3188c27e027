//! The grammar of an entry, as functions on a sequence of characters.
//!
//! Every production takes the text and an index, and gives what it read, the
//! index after it and whether the identifiers it met were written in the form
//! in which they are written back. Alternatives are ordered: the first that
//! reads anything wins.

use vstd::prelude::*;
use crate::hex::hex_id;
use crate::tags::{EntryTagModel, ParaTagModel, SimpleTagModel, TaggedEntryModel};
use crate::text::{first_at, has_at, lit, text_run};

verus! {

/// Where a sequence of inline tags stands, which decides what it may hold.
#[derive(Clone, Copy, Debug, PartialEq, Eq)]
pub enum Inline {
    /// In a paragraph: every inline tag.
    Simple,
    /// In a bracketed annotation: no line break, subscript or superscript.
    Boxed,
    /// In a quoted passage: text, emphasis and line breaks; brackets are text.
    Quote,
}

/// The first of two results that is there.
pub open spec fn or_else<T>(a: Option<T>, b: Option<T>) -> Option<T> {
    if a is Some {
        a
    } else {
        b
    }
}

/// As many items as `p` reads one after the other from `pos` on, the index
/// after the last one, and whether all were exact. An item that does not
/// advance ends the repetition.
pub open spec fn many0<T>(
    p: spec_fn(Seq<char>, int) -> Option<(T, int, bool)>,
    s: Seq<char>,
    pos: int,
) -> (Seq<T>, int, bool)
    decreases s.len() - pos,
{
    match p(s, pos) {
        Some((t, e, x)) => if pos < e <= s.len() {
            let (ts, end, xs) = many0(p, s, e);
            (seq![t] + ts, end, x && xs)
        } else {
            (Seq::empty(), pos, true)
        },
        None => (Seq::empty(), pos, true),
    }
}

/// At least one item.
pub open spec fn many1<T>(
    p: spec_fn(Seq<char>, int) -> Option<(T, int, bool)>,
    s: Seq<char>,
    pos: int,
) -> Option<(Seq<T>, int, bool)> {
    let (ts, end, x) = many0(p, s, pos);
    if ts.len() > 0 {
        Some((ts, end, x))
    } else {
        None
    }
}

/// `open`, a run of ordinary text, `close`: the text and the index after `close`.
pub open spec fn enclosed_run(
    s: Seq<char>,
    pos: int,
    open: Seq<char>,
    square: bool,
    close: Seq<char>,
) -> Option<(Seq<char>, int)> {
    match lit(s, pos, open) {
        Some(a) => match text_run(s, a, square) {
            Some(b) => match lit(s, b, close) {
                Some(e) => Some((s.subrange(a, b), e)),
                None => None,
            },
            None => None,
        },
        None => None,
    }
}

/// `open`, anything up to the first `close`, `close`: what stands between
/// them and the index after `close`.
pub open spec fn enclosed_until(s: Seq<char>, pos: int, open: Seq<char>, close: Seq<char>) -> Option<
    (Seq<char>, int),
> {
    match lit(s, pos, open) {
        Some(a) => match first_at(s, a, close) {
            Some(b) => Some((s.subrange(a, b), b + close.len())),
            None => None,
        },
        None => None,
    }
}

/// A run of ordinary text.
pub open spec fn plain(s: Seq<char>, pos: int, square: bool) -> Option<(SimpleTagModel, int, bool)> {
    match text_run(s, pos, square) {
        Some(e) => Some((SimpleTagModel::Plain(s.subrange(pos, e)), e, true)),
        None => None,
    }
}

/// `<i>`, anything, `</i>`.
pub open spec fn emph(s: Seq<char>, pos: int) -> Option<(SimpleTagModel, int, bool)> {
    match enclosed_until(s, pos, "<i>"@, "</i>"@) {
        Some((text, e)) => Some((SimpleTagModel::Emph(text), e, true)),
        None => None,
    }
}

/// `<b>`, text, `</b>`.
pub open spec fn bold(s: Seq<char>, pos: int) -> Option<(SimpleTagModel, int, bool)> {
    match enclosed_run(s, pos, "<b>"@, false, "</b>"@) {
        Some((text, e)) => Some((SimpleTagModel::Bold(text), e, true)),
        None => None,
    }
}

/// A link to another entry: the opening with the target's identifier, the
/// text shown, `</a>`.
pub open spec fn toc_link_spec(s: Seq<char>, pos: int) -> Option<((u32, Seq<char>), int, bool)> {
    match lit(s, pos, "<a href=\"#MBP_TOC_"@) {
        Some(a) => match hex_id(s, a) {
            Some((id, b, exact)) => match lit(s, b, "\">"@) {
                Some(c) => match text_run(s, c, false) {
                    Some(d) => match lit(s, d, "</a>"@) {
                        Some(e) => Some(((id, s.subrange(c, d)), e, exact)),
                        None => None,
                    },
                    None => None,
                },
                None => None,
            },
            None => None,
        },
        None => None,
    }
}

/// A link as an inline tag.
pub open spec fn word_ref(s: Seq<char>, pos: int) -> Option<(SimpleTagModel, int, bool)> {
    match toc_link_spec(s, pos) {
        Some(((id, text), e, exact)) => Some((SimpleTagModel::WordRef(id, text), e, exact)),
        None => None,
    }
}

/// `<small><b>`, text, `</b></small>`.
pub open spec fn small_b(s: Seq<char>, pos: int) -> Option<(SimpleTagModel, int, bool)> {
    match enclosed_run(s, pos, "<small><b>"@, false, "</b></small>"@) {
        Some((text, e)) => Some((SimpleTagModel::SmallB(text), e, true)),
        None => None,
    }
}

/// `<br>` and a newline.
pub open spec fn break_tag(s: Seq<char>, pos: int) -> Option<(SimpleTagModel, int, bool)> {
    match lit(s, pos, "<br>\n"@) {
        Some(e) => Some((SimpleTagModel::BreakTag, e, true)),
        None => None,
    }
}

/// `[`, text or nothing, `]`.
pub open spec fn boxed_plain(s: Seq<char>, pos: int) -> Option<(SimpleTagModel, int, bool)> {
    match lit(s, pos, "["@) {
        Some(a) => {
            let b = match text_run(s, a, true) {
                Some(b) => b,
                None => a,
            };
            match lit(s, b, "]"@) {
                Some(e) => Some((SimpleTagModel::BoxedPlain(s.subrange(a, b)), e, true)),
                None => None,
            }
        },
        None => None,
    }
}

/// `<sub>`, text, `</sub>`.
pub open spec fn sub_tag(s: Seq<char>, pos: int) -> Option<(SimpleTagModel, int, bool)> {
    match enclosed_run(s, pos, "<sub>"@, false, "</sub>"@) {
        Some((text, e)) => Some((SimpleTagModel::Sub(text), e, true)),
        None => None,
    }
}

/// `<sup>`, text, `</sup>`.
pub open spec fn sup_tag(s: Seq<char>, pos: int) -> Option<(SimpleTagModel, int, bool)> {
    match enclosed_run(s, pos, "<sup>"@, false, "</sup>"@) {
        Some((text, e)) => Some((SimpleTagModel::Sup(text), e, true)),
        None => None,
    }
}

/// One inline tag: the alternatives that `ctx` admits, in their order.
pub open spec fn inline_tag(ctx: Inline, s: Seq<char>, pos: int) -> Option<(SimpleTagModel, int, bool)> {
    match ctx {
        Inline::Quote => or_else(plain(s, pos, false), or_else(emph(s, pos), break_tag(s, pos))),
        Inline::Boxed => or_else(
            plain(s, pos, true),
            or_else(
                emph(s, pos),
                or_else(
                    bold(s, pos),
                    or_else(word_ref(s, pos), or_else(small_b(s, pos), boxed_plain(s, pos))),
                ),
            ),
        ),
        Inline::Simple => or_else(
            plain(s, pos, true),
            or_else(
                emph(s, pos),
                or_else(
                    bold(s, pos),
                    or_else(
                        word_ref(s, pos),
                        or_else(
                            small_b(s, pos),
                            or_else(
                                break_tag(s, pos),
                                or_else(boxed_plain(s, pos), or_else(sub_tag(s, pos), sup_tag(s, pos))),
                            ),
                        ),
                    ),
                ),
            ),
        ),
    }
}

/// `inline_tag` for a given place, as a function of text and index.
pub open spec fn inline_parser(ctx: Inline) -> spec_fn(Seq<char>, int) -> Option<
    (SimpleTagModel, int, bool),
> {
    |s: Seq<char>, pos: int| inline_tag(ctx, s, pos)
}

/// One or more inline tags.
pub open spec fn inline_tags(ctx: Inline, s: Seq<char>, pos: int) -> Option<
    (Seq<SimpleTagModel>, int, bool),
> {
    many1(inline_parser(ctx), s, pos)
}

/// The abbreviations that mark a bracketed annotation as grammatical.
pub open spec fn gram_markers() -> Seq<Seq<char>> {
    seq![
        "compar."@,
        "Compar."@,
        "dat."@,
        "imp."@,
        "inf."@,
        "nom."@,
        "obj."@,
        "obs."@,
        "Obs."@,
        "p. p."@,
        "p. pr."@,
        "pl."@,
        "poss."@,
        "Poss."@,
        "pres."@,
        "pret."@,
        "sing."@,
        "Sing."@,
        "superl."@,
        "Superl."@,
        "v. i."@,
        "v. t."@,
        "vb. n."@,
    ]
}

/// `text` starts with one of the grammatical abbreviations.
pub open spec fn is_gram_marker_spec(text: Seq<char>) -> bool {
    exists|i: int| 0 <= i < gram_markers().len() && has_at(text, 0, #[trigger] gram_markers()[i])
}

/// The first tag is emphasised text that starts with a grammatical
/// abbreviation.
pub open spec fn opens_with_marker(tags: Seq<SimpleTagModel>) -> bool {
    tags.len() > 0 && match tags[0] {
        SimpleTagModel::Emph(text) => is_gram_marker_spec(text),
        _ => false,
    }
}

/// A bracketed annotation is grammatical where it opens with a marker, and
/// plain otherwise. Only its first tag is looked at.
pub open spec fn classify(tags: Seq<SimpleTagModel>) -> ParaTagModel {
    if opens_with_marker(tags) {
        ParaTagModel::BoxedGrammar(tags)
    } else {
        ParaTagModel::Boxed(tags)
    }
}

/// A run of inline tags.
pub open spec fn simple(s: Seq<char>, pos: int) -> Option<(ParaTagModel, int, bool)> {
    match inline_tags(Inline::Simple, s, pos) {
        Some((tags, e, x)) => Some((ParaTagModel::Simple(tags), e, x)),
        None => None,
    }
}

/// `[`, inline tags, `]`.
pub open spec fn boxed(s: Seq<char>, pos: int) -> Option<(ParaTagModel, int, bool)> {
    match lit(s, pos, "["@) {
        Some(a) => match inline_tags(Inline::Boxed, s, a) {
            Some((tags, b, x)) => match lit(s, b, "]"@) {
                Some(e) => Some((classify(tags), e, x)),
                None => None,
            },
            None => None,
        },
        None => None,
    }
}

/// `<strong>`, text, `</strong>`.
pub open spec fn strong(s: Seq<char>, pos: int) -> Option<(ParaTagModel, int, bool)> {
    match enclosed_run(s, pos, "<strong>"@, false, "</strong>"@) {
        Some((text, e)) => Some((ParaTagModel::Strong(text), e, true)),
        None => None,
    }
}

/// One paragraph tag: a run of inline tags, else a bracketed annotation, else
/// a sub-entry marker.
pub open spec fn para_tag(s: Seq<char>, pos: int) -> Option<(ParaTagModel, int, bool)> {
    or_else(simple(s, pos), or_else(boxed(s, pos), strong(s, pos)))
}

/// `para_tag` as a function of text and index.
pub open spec fn para_parser() -> spec_fn(Seq<char>, int) -> Option<(ParaTagModel, int, bool)> {
    |s: Seq<char>, pos: int| para_tag(s, pos)
}

/// `<p>`, paragraph tags, `</p>` and a newline.
pub open spec fn para_block(s: Seq<char>, pos: int) -> Option<(EntryTagModel, int, bool)> {
    match lit(s, pos, "<p>"@) {
        Some(a) => match many1(para_parser(), s, a) {
            Some((tags, b, x)) => match lit(s, b, "</p>\n"@) {
                Some(e) => Some((EntryTagModel::Para(tags), e, x)),
                None => None,
            },
            None => None,
        },
        None => None,
    }
}

/// `<pre>`, anything, `</pre>`.
pub open spec fn pre_block(s: Seq<char>, pos: int) -> Option<(EntryTagModel, int, bool)> {
    match enclosed_until(s, pos, "<pre>"@, "</pre>"@) {
        Some((text, e)) => Some((EntryTagModel::Pre(text), e, true)),
        None => None,
    }
}

/// Who is quoted: a horizontal bar, then the name in `<i>`.
pub open spec fn attribution(s: Seq<char>, pos: int) -> Option<(Seq<char>, int)> {
    enclosed_run(s, pos, "\u{2015}<i>"@, false, "</i>"@)
}

/// A quoted passage: its paragraph of text, emphasis and line breaks, and
/// after it the attribution where there is one.
pub open spec fn blockquote(s: Seq<char>, pos: int) -> Option<(EntryTagModel, int, bool)> {
    match lit(s, pos, "<blockquote>\n"@) {
        Some(a) => match lit(s, a, "<p>"@) {
            Some(b) => match inline_tags(Inline::Quote, s, b) {
                Some((tags, c, x)) => match lit(s, c, "</p>\n"@) {
                    Some(d) => {
                        let (author, after) = match attribution(s, d) {
                            Some((name, e)) => (Some(name), e),
                            None => (None, d),
                        };
                        match lit(s, after, "</blockquote>\n"@) {
                            Some(e) => Some((EntryTagModel::Blockquote(tags, author), e, x)),
                            None => None,
                        }
                    },
                    None => None,
                },
                None => None,
            },
            None => None,
        },
        None => None,
    }
}

/// A bare newline between blocks.
pub open spec fn line_break(s: Seq<char>, pos: int) -> Option<(EntryTagModel, int, bool)> {
    match lit(s, pos, "\n"@) {
        Some(e) => Some((EntryTagModel::LineBreak, e, true)),
        None => None,
    }
}

/// One block: a paragraph, else preformatted text, else a quoted passage,
/// else a bare newline.
pub open spec fn block(s: Seq<char>, pos: int) -> Option<(EntryTagModel, int, bool)> {
    or_else(para_block(s, pos), or_else(pre_block(s, pos), or_else(blockquote(s, pos), line_break(s, pos))))
}

/// `block` as a function of text and index.
pub open spec fn block_parser() -> spec_fn(Seq<char>, int) -> Option<(EntryTagModel, int, bool)> {
    |s: Seq<char>, pos: int| block(s, pos)
}

/// The opening marker of an entry: the identifier and the headword.
pub open spec fn div_open(s: Seq<char>, pos: int) -> Option<((u32, Seq<char>), int, bool)> {
    match lit(s, pos, "<div id=\"MBP_TOC_"@) {
        Some(a) => match hex_id(s, a) {
            Some((id, b, exact)) => match lit(s, b, "\" data-ascii=\""@) {
                Some(c) => match first_at(s, c, "\">\n"@) {
                    Some(d) => Some(((id, s.subrange(c, d)), d + "\">\n"@.len(), exact)),
                    None => None,
                },
                None => None,
            },
            None => None,
        },
        None => None,
    }
}

/// A whole entry: the opening marker, one or more blocks, the closing marker,
/// and nothing after it.
pub open spec fn entry(s: Seq<char>) -> Option<(TaggedEntryModel, bool)> {
    match div_open(s, 0) {
        Some(((id, word), a, exact)) => match many1(block_parser(), s, a) {
            Some((tags, b, x)) => match lit(s, b, "</div>\n"@) {
                Some(e) => if e == s.len() {
                    Some((TaggedEntryModel { tocid: id, tags: tags, word: word }, exact && x))
                } else {
                    None
                },
                None => None,
            },
            None => None,
        },
        None => None,
    }
}

/// The tree of an entry's text, where the text is an entry from end to end.
pub open spec fn parse_entry_spec(s: Seq<char>) -> Option<TaggedEntryModel> {
    match entry(s) {
        Some((e, _)) => Some(e),
        None => None,
    }
}

/// The text is an entry whose identifiers, its own and those of its links,
/// are all written in upper-case hexadecimal without leading zeros.
pub open spec fn ids_canonical(s: Seq<char>) -> bool {
    match entry(s) {
        Some((_, exact)) => exact,
        None => false,
    }
}

/// A bracketed annotation is classified by its first tag alone: it is a
/// grammatical one exactly where that tag is emphasised text that starts with
/// a grammatical abbreviation, and a plain one otherwise.
pub proof fn law_classification(s: Seq<char>, pos: int)
    ensures
        match boxed(s, pos) {
            Some((ParaTagModel::BoxedGrammar(tags), _, _)) => opens_with_marker(tags),
            Some((ParaTagModel::Boxed(tags), _, _)) => !opens_with_marker(tags),
            Some(_) => false,
            None => true,
        },
{
}

/// The inline tags that may stand at a place: every one in a paragraph; no
/// line break, subscript or superscript in a bracketed annotation; text,
/// emphasis and line breaks alone in a quoted passage.
pub open spec fn allowed_in(ctx: Inline, t: SimpleTagModel) -> bool {
    match ctx {
        Inline::Simple => true,
        Inline::Boxed => !(t is BreakTag || t is Sub || t is Sup),
        Inline::Quote => t is Plain || t is Emph || t is BreakTag,
    }
}

/// Every tag of a sequence may stand at the place.
pub open spec fn all_allowed_in(ctx: Inline, tags: Seq<SimpleTagModel>) -> bool {
    forall|i: int| 0 <= i < tags.len() ==> allowed_in(ctx, #[trigger] tags[i])
}

/// What holds of every item that a step reads holds of every item of a
/// repetition.
pub proof fn lemma_many0_all<T>(
    p: spec_fn(Seq<char>, int) -> Option<(T, int, bool)>,
    ok: spec_fn(T) -> bool,
    s: Seq<char>,
    pos: int,
)
    requires
        forall|q: int| #[trigger] p(s, q) matches Some((t, _, _)) ==> ok(t),
    ensures
        forall|i: int| 0 <= i < many0(p, s, pos).0.len() ==> ok(#[trigger] many0(p, s, pos).0[i]),
    decreases s.len() - pos,
{
    if let Some((t, e, _)) = p(s, pos) {
        if pos < e <= s.len() {
            lemma_many0_all(p, ok, s, e);
            let rest = many0(p, s, e).0;
            assert forall|i: int| 0 <= i < (seq![t] + rest).len() implies ok(
                #[trigger] (seq![t] + rest)[i],
            ) by {
                if i > 0 {
                    assert((seq![t] + rest)[i] == rest[i - 1]);
                }
            }
        }
    }
}

/// The parser puts no inline tag where the grammar has no place for it: in
/// every sequence of inline tags that it reads, every tag may stand at the
/// sequence's place.
pub proof fn law_inline_places(ctx: Inline, s: Seq<char>, pos: int)
    ensures
        inline_tags(ctx, s, pos) matches Some((tags, _, _)) ==> all_allowed_in(ctx, tags),
{
    let ok = |t: SimpleTagModel| allowed_in(ctx, t);
    assert forall|q: int| #[trigger]
        inline_parser(ctx)(s, q) matches Some((t, _, _)) ==> ok(t) by {}
    lemma_many0_all(inline_parser(ctx), ok, s, pos);
    if let Some((tags, _, _)) = inline_tags(ctx, s, pos) {
        assert forall|i: int| 0 <= i < tags.len() implies allowed_in(ctx, #[trigger] tags[i]) by {
            assert(ok(many0(inline_parser(ctx), s, pos).0[i]));
        }
    }
}

/// The tags of a bracketed annotation that the parser reads may all stand in
/// one, and those of a quoted passage in a quoted passage.
pub proof fn law_group_places(s: Seq<char>, pos: int)
    ensures
        match para_tag(s, pos) {
            Some((ParaTagModel::Boxed(tags), _, _)) => all_allowed_in(Inline::Boxed, tags),
            Some((ParaTagModel::BoxedGrammar(tags), _, _)) => all_allowed_in(Inline::Boxed, tags),
            _ => true,
        },
        match block(s, pos) {
            Some((EntryTagModel::Blockquote(tags, _), _, _)) => all_allowed_in(Inline::Quote, tags),
            _ => true,
        },
{
    if let Some(a) = lit(s, pos, "["@) {
        law_inline_places(Inline::Boxed, s, a);
    }
    if let Some(a) = lit(s, pos, "<blockquote>\n"@) {
        if let Some(b) = lit(s, a, "<p>"@) {
            law_inline_places(Inline::Quote, s, b);
        }
    }
}

} // verus!
