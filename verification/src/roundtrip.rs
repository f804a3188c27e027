//! What the grammar reads, the markup writes back: each production that
//! succeeds with exact identifiers has read the markup of its result.

use vstd::prelude::*;
use crate::grammar::{
    Inline, attribution, block, block_parser, blockquote, boxed, boxed_plain, div_open, enclosed_run,
    enclosed_until, ids_canonical, inline_parser, inline_tag, inline_tags, many0, many1,
    para_block, para_parser, para_tag, parse_entry_spec, simple, toc_link_spec,
};
use crate::hex::hex_id;
use crate::tags::{
    EntryTagModel, ParaTagModel, SimpleTagModel, TaggedEntryModel, author_markup, block_markup,
    blocks_markup, entry_markup, head_markup, inline_markup, para_markup, paras_markup,
    simple_markup,
};
use crate::text::{
    first_at, join, lemma_first_at, lemma_join_concat, lemma_join_push, lemma_pieces, lit, text_run,
};

verus! {

/// Whatever a step reads lies within the text; where its identifiers are
/// exact, it is the markup of the step's result.
pub open spec fn reads_markup<T>(
    p: spec_fn(Seq<char>, int) -> Option<(T, int, bool)>,
    f: spec_fn(T) -> Seq<char>,
    s: Seq<char>,
) -> bool {
    forall|q: int|
        0 <= q <= s.len() ==> match #[trigger] p(s, q) {
            Some((t, e, x)) => q <= e <= s.len() && (x ==> f(t) == s.subrange(q, e)),
            None => true,
        }
}

/// A repetition stays within the text, and reads the joined markup of its
/// items where each step does.
pub proof fn lemma_many0_markup<T>(
    p: spec_fn(Seq<char>, int) -> Option<(T, int, bool)>,
    f: spec_fn(T) -> Seq<char>,
    s: Seq<char>,
    pos: int,
)
    requires
        0 <= pos <= s.len(),
        reads_markup(p, f, s),
    ensures
        pos <= many0(p, s, pos).1 <= s.len(),
        many0(p, s, pos).0.len() > 0 ==> pos < many0(p, s, pos).1,
        many0(p, s, pos).2 ==> join(many0(p, s, pos).0, f) == s.subrange(pos, many0(p, s, pos).1),
    decreases s.len() - pos,
{
    match p(s, pos) {
        Some((t, e, x)) => {
            if pos < e <= s.len() {
                lemma_many0_markup(p, f, s, e);
                let (ts, end, xs) = many0(p, s, e);
                if x && xs {
                    lemma_join_concat(seq![t], ts, f);
                    lemma_join_push(Seq::<T>::empty(), t, f);
                    assert(Seq::<T>::empty().push(t) =~= seq![t]);
                    assert(join(Seq::<T>::empty(), f) + f(t) =~= f(t));
                    lemma_pieces(s, pos, e, end);
                }
            } else {
                assert(s.subrange(pos, pos) =~= Seq::<char>::empty());
            }
        },
        None => {
            assert(s.subrange(pos, pos) =~= Seq::<char>::empty());
        },
    }
}

/// What `enclosed_run` reads is the opening, the text and the closing.
pub proof fn lemma_enclosed_run(s: Seq<char>, pos: int, open: Seq<char>, square: bool, close: Seq<char>)
    ensures
        enclosed_run(s, pos, open, square, close) matches Some((text, e)) ==> 0 <= pos <= e <= s.len()
            && open + text + close == s.subrange(pos, e),
{
    if let Some(a) = lit(s, pos, open) {
        if let Some(b) = text_run(s, a, square) {
            if let Some(e) = lit(s, b, close) {
                assert(open + s.subrange(a, b) + close =~= s.subrange(pos, e));
            }
        }
    }
}

/// What `enclosed_until` reads is the opening, what stands between, and the
/// closing.
pub proof fn lemma_enclosed_until(s: Seq<char>, pos: int, open: Seq<char>, close: Seq<char>)
    ensures
        enclosed_until(s, pos, open, close) matches Some((text, e)) ==> 0 <= pos <= e <= s.len()
            && open + text + close == s.subrange(pos, e),
{
    if let Some(a) = lit(s, pos, open) {
        lemma_first_at(s, a, close);
        if let Some(b) = first_at(s, a, close) {
            let e = b + close.len();
            assert(open + s.subrange(a, b) + close =~= s.subrange(pos, e));
        }
    }
}

/// A link with an exact identifier is read from its own markup.
pub proof fn lemma_toc_link(s: Seq<char>, pos: int)
    ensures
        toc_link_spec(s, pos) matches Some(((id, text), e, exact)) ==> 0 <= pos <= e <= s.len() && (exact
            ==> simple_markup(SimpleTagModel::WordRef(id, text)) == s.subrange(pos, e)),
{
    if let Some(((id, text), e, exact)) = toc_link_spec(s, pos) {
        let a = lit(s, pos, "<a href=\"#MBP_TOC_"@).unwrap();
        let (_, b, _) = hex_id(s, a).unwrap();
        let c = lit(s, b, "\">"@).unwrap();
        let d = text_run(s, c, false).unwrap();
        if exact {
            assert(simple_markup(SimpleTagModel::WordRef(id, text)) =~= s.subrange(pos, e));
        }
    }
}

/// An inline tag with exact identifiers is read from its own markup.
pub proof fn lemma_inline_tag(ctx: Inline, s: Seq<char>, pos: int)
    ensures
        inline_tag(ctx, s, pos) matches Some((t, e, x)) ==> 0 <= pos <= e <= s.len() && (x
            ==> simple_markup(t) == s.subrange(pos, e)),
{
    lemma_enclosed_until(s, pos, "<i>"@, "</i>"@);
    lemma_enclosed_run(s, pos, "<b>"@, false, "</b>"@);
    lemma_enclosed_run(s, pos, "<small><b>"@, false, "</b></small>"@);
    lemma_enclosed_run(s, pos, "<sub>"@, false, "</sub>"@);
    lemma_enclosed_run(s, pos, "<sup>"@, false, "</sup>"@);
    lemma_toc_link(s, pos);
    if let Some((t, e, x)) = boxed_plain(s, pos) {
        let a = lit(s, pos, "["@).unwrap();
        let b = e - "]"@.len();
        assert("["@ + s.subrange(a, b) + "]"@ =~= s.subrange(pos, e));
    }
}

/// Every step of a sequence of inline tags reads its own markup.
pub proof fn lemma_inline_steps(ctx: Inline, s: Seq<char>)
    ensures
        reads_markup(inline_parser(ctx), |t: SimpleTagModel| simple_markup(t), s),
{
    assert forall|q: int| 0 <= q <= s.len() implies match #[trigger] inline_parser(ctx)(s, q) {
        Some((t, e, x)) => q <= e <= s.len() && (x ==> simple_markup(t) == s.subrange(q, e)),
        None => true,
    } by {
        lemma_inline_tag(ctx, s, q);
    }
}

/// A sequence of inline tags with exact identifiers is read from its own
/// markup.
pub proof fn lemma_inline_tags(ctx: Inline, s: Seq<char>, pos: int)
    ensures
        inline_tags(ctx, s, pos) matches Some((tags, e, x)) ==> pos < e <= s.len() && (x
            ==> inline_markup(tags) == s.subrange(pos, e)),
{
    if 0 <= pos <= s.len() {
        lemma_inline_steps(ctx, s);
        lemma_many0_markup(inline_parser(ctx), |t: SimpleTagModel| simple_markup(t), s, pos);
    } else {
        lemma_inline_tag(ctx, s, pos);
    }
}

/// A paragraph tag with exact identifiers is read from its own markup.
pub proof fn lemma_para_tag(s: Seq<char>, pos: int)
    ensures
        para_tag(s, pos) matches Some((t, e, x)) ==> 0 <= pos <= e <= s.len() && (x ==> para_markup(t)
            == s.subrange(pos, e)),
{
    lemma_enclosed_run(s, pos, "<strong>"@, false, "</strong>"@);
    if simple(s, pos) is Some {
        lemma_inline_tag(Inline::Simple, s, pos);
        lemma_inline_tags(Inline::Simple, s, pos);
    } else if let Some((t, e, x)) = boxed(s, pos) {
        let a = lit(s, pos, "["@).unwrap();
        lemma_inline_tags(Inline::Boxed, s, a);
        let (tags, b, _) = inline_tags(Inline::Boxed, s, a).unwrap();
        if x {
            assert("["@ + inline_markup(tags) + "]"@ =~= s.subrange(pos, e));
        }
    }
}

/// Every step of a sequence of paragraph tags reads its own markup.
pub proof fn lemma_para_steps(s: Seq<char>)
    ensures
        reads_markup(para_parser(), |t: ParaTagModel| para_markup(t), s),
{
    assert forall|q: int| 0 <= q <= s.len() implies match #[trigger] para_parser()(s, q) {
        Some((t, e, x)) => q <= e <= s.len() && (x ==> para_markup(t) == s.subrange(q, e)),
        None => true,
    } by {
        lemma_para_tag(s, q);
    }
}

/// A sequence of paragraph tags with exact identifiers is read from its own
/// markup.
pub proof fn lemma_para_tags(s: Seq<char>, pos: int)
    ensures
        many1(para_parser(), s, pos) matches Some((tags, e, x)) ==> pos < e <= s.len() && (x
            ==> paras_markup(tags) == s.subrange(pos, e)),
{
    if 0 <= pos <= s.len() {
        lemma_para_steps(s);
        lemma_many0_markup(para_parser(), |t: ParaTagModel| para_markup(t), s, pos);
    } else {
        lemma_para_tag(s, pos);
    }
}

/// A paragraph with exact identifiers is read from its own markup.
pub proof fn lemma_para_block(s: Seq<char>, pos: int)
    ensures
        para_block(s, pos) matches Some((t, e, x)) ==> 0 <= pos <= e <= s.len() && (x
            ==> block_markup(t) == s.subrange(pos, e)),
{
    if let Some((t, e, x)) = para_block(s, pos) {
        let a = lit(s, pos, "<p>"@).unwrap();
        lemma_para_tags(s, a);
        let (tags, b, _) = many1(para_parser(), s, a).unwrap();
        if x {
            lemma_pieces(s, pos, a, b);
            lemma_pieces(s, pos, b, e);
        }
    }
}

/// What the attribution reads, where there is one, is its markup.
pub proof fn lemma_attribution(s: Seq<char>, pos: int)
    requires
        0 <= pos <= s.len(),
    ensures
        match attribution(s, pos) {
            Some((name, e)) => pos <= e <= s.len() && author_markup(Some(name)) == s.subrange(pos, e),
            None => author_markup(None) == s.subrange(pos, pos),
        },
{
    lemma_enclosed_run(s, pos, "\u{2015}<i>"@, false, "</i>"@);
    assert(s.subrange(pos, pos) =~= Seq::<char>::empty());
}

/// A quoted passage is read from its own markup.
pub proof fn lemma_blockquote(s: Seq<char>, pos: int)
    ensures
        blockquote(s, pos) matches Some((t, e, x)) ==> 0 <= pos <= e <= s.len() && (x
            ==> block_markup(t) == s.subrange(pos, e)),
{
    if let Some((t, e, x)) = blockquote(s, pos) {
        let a = lit(s, pos, "<blockquote>\n"@).unwrap();
        let b = lit(s, a, "<p>"@).unwrap();
        lemma_inline_tags(Inline::Quote, s, b);
        let (tags, c, _) = inline_tags(Inline::Quote, s, b).unwrap();
        let d = lit(s, c, "</p>\n"@).unwrap();
        lemma_attribution(s, d);
        let (author, after) = match attribution(s, d) {
            Some((name, e)) => (Some(name), e),
            None => (None, d),
        };
        if x {
            lemma_pieces(s, pos, a, b);
            lemma_pieces(s, pos, b, c);
            lemma_pieces(s, pos, c, d);
            lemma_pieces(s, pos, d, after);
            lemma_pieces(s, pos, after, e);
        }
    }
}

/// A block with exact identifiers is read from its own markup.
pub proof fn lemma_block(s: Seq<char>, pos: int)
    ensures
        block(s, pos) matches Some((t, e, x)) ==> 0 <= pos <= e <= s.len() && (x ==> block_markup(t)
            == s.subrange(pos, e)),
{
    lemma_enclosed_until(s, pos, "<pre>"@, "</pre>"@);
    lemma_para_block(s, pos);
    lemma_blockquote(s, pos);
}

/// Every step of a sequence of blocks reads its own markup.
pub proof fn lemma_block_steps(s: Seq<char>)
    ensures
        reads_markup(block_parser(), |t: EntryTagModel| block_markup(t), s),
{
    assert forall|q: int| 0 <= q <= s.len() implies match #[trigger] block_parser()(s, q) {
        Some((t, e, x)) => q <= e <= s.len() && (x ==> block_markup(t) == s.subrange(q, e)),
        None => true,
    } by {
        lemma_block(s, q);
    }
}

/// A sequence of blocks with exact identifiers is read from its own markup.
pub proof fn lemma_blocks(s: Seq<char>, pos: int)
    ensures
        many1(block_parser(), s, pos) matches Some((tags, e, x)) ==> pos < e <= s.len() && (x
            ==> blocks_markup(tags) == s.subrange(pos, e)),
{
    if 0 <= pos <= s.len() {
        lemma_block_steps(s);
        lemma_many0_markup(block_parser(), |t: EntryTagModel| block_markup(t), s, pos);
    } else {
        lemma_block(s, pos);
    }
}

/// An opening marker with an exact identifier is read from its own markup.
pub proof fn lemma_div_open(s: Seq<char>, pos: int)
    ensures
        div_open(s, pos) matches Some(((id, word), e, exact)) ==> 0 <= pos <= e <= s.len() && (exact
            ==> head_markup(id, word) == s.subrange(pos, e)),
{
    if let Some(((id, word), e, exact)) = div_open(s, pos) {
        let a = lit(s, pos, "<div id=\"MBP_TOC_"@).unwrap();
        let (_, b, _) = hex_id(s, a).unwrap();
        let c = lit(s, b, "\" data-ascii=\""@).unwrap();
        lemma_first_at(s, c, "\">\n"@);
        let d = first_at(s, c, "\">\n"@).unwrap();
        if exact {
            lemma_pieces(s, pos, a, b);
            lemma_pieces(s, pos, b, c);
            lemma_pieces(s, pos, c, d);
            lemma_pieces(s, pos, d, e);
        }
    }
}

/// An entry's text that parses into a tree, and whose identifiers are written
/// in upper-case hexadecimal without leading zeros, is the markup of that
/// tree, character for character.
pub proof fn law_round_trip(e: Seq<char>, t: TaggedEntryModel)
    requires
        parse_entry_spec(e) == Some(t),
        ids_canonical(e),
    ensures
        entry_markup(t) == e,
{
    lemma_div_open(e, 0);
    let ((id, word), a, _) = div_open(e, 0).unwrap();
    lemma_blocks(e, a);
    let (tags, b, _) = many1(block_parser(), e, a).unwrap();
    lemma_pieces(e, 0, a, b);
    lemma_pieces(e, 0, b, e.len() as int);
    assert(e.subrange(0, e.len() as int) =~= e);
}

} // verus!
