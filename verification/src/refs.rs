//! Links in grammatical annotations: a link is kept where the text before it
//! leads to it, and turned into small bold text where it does not.

use vstd::prelude::*;
use vstd::string::StrSliceExecFns;
use crate::tags::{
    EntryTag, EntryTagModel, ParaTag, ParaTagModel, SimpleTag, SimpleTagModel, TaggedEntry,
    TaggedEntryModel, block_views, inline_views, para_views,
};
use crate::text::{chars_of, eat, has_at};

verus! {

/// A character with the Unicode property White_Space: the controls from the
/// tab to the carriage return, the blank, the next-line control, and the
/// spaces and separators beyond ASCII.
pub open spec fn is_white_space(c: char) -> bool {
    let u = c as u32;
    (0x9 <= u && u <= 0xd) || u == 0x20 || u == 0x85 || u == 0xa0 || u == 0x1680 || (0x2000 <= u && u
        <= 0x200a) || u == 0x2028 || u == 0x2029 || u == 0x202f || u == 0x205f || u == 0x3000
}

/// `s` from its first character on that is no white space.
pub open spec fn trim_start(s: Seq<char>) -> Seq<char>
    decreases s.len(),
{
    if s.len() == 0 || !is_white_space(s[0]) {
        s
    } else {
        trim_start(s.drop_first())
    }
}

/// `s` up to its last character that is no white space.
pub open spec fn trim_end(s: Seq<char>) -> Seq<char>
    decreases s.len(),
{
    if s.len() == 0 || !is_white_space(s.last()) {
        s
    } else {
        trim_end(s.drop_last())
    }
}

/// `s` without the white space at its start and at its end.
pub open spec fn trimmed(s: Seq<char>) -> Seq<char> {
    trim_end(trim_start(s))
}

/// `text` ends with `pat`.
pub open spec fn ends_with(text: Seq<char>, pat: Seq<char>) -> bool {
    has_at(text, text.len() - pat.len(), pat)
}

/// The text leads to a link: it ends with `See `, `see ` or `of `.
pub open spec fn leads_to_ref(text: Seq<char>) -> bool {
    ends_with(text, "See "@) || ends_with(text, "see "@) || ends_with(text, "of "@)
}

/// The text goes on with one more link: it is a comma, with or without white
/// space around it.
pub open spec fn joins_refs(text: Seq<char>) -> bool {
    trimmed(text) == ","@
}

/// What becomes of one tag, and whether a link right after it is kept.
/// `keep_ref` says whether a link at this place is kept.
pub open spec fn demoted_tag(t: SimpleTagModel, keep_ref: bool) -> (SimpleTagModel, bool) {
    match t {
        SimpleTagModel::Plain(text) => (
            t,
            if keep_ref {
                joins_refs(text)
            } else {
                leads_to_ref(text)
            },
        ),
        SimpleTagModel::WordRef(_, text) => (
            if keep_ref {
                t
            } else {
                SimpleTagModel::SmallB(text)
            },
            keep_ref,
        ),
        _ => (t, false),
    }
}

/// The tags of an annotation with every link that nothing leads to turned
/// into small bold text.
pub open spec fn demoted(tags: Seq<SimpleTagModel>, keep_ref: bool) -> Seq<SimpleTagModel>
    decreases tags.len(),
{
    if tags.len() == 0 {
        Seq::empty()
    } else {
        let (t, keep) = demoted_tag(tags[0], keep_ref);
        seq![t] + demoted(tags.drop_first(), keep)
    }
}

/// A paragraph tag with its links demoted where it is a grammatical
/// annotation, and as it is otherwise.
pub open spec fn demoted_para_tag(t: ParaTagModel) -> ParaTagModel {
    match t {
        ParaTagModel::BoxedGrammar(tags) => ParaTagModel::BoxedGrammar(demoted(tags, false)),
        _ => t,
    }
}

/// A block with the links of its grammatical annotations demoted.
pub open spec fn demoted_block(t: EntryTagModel) -> EntryTagModel {
    match t {
        EntryTagModel::Para(tags) => EntryTagModel::Para(
            tags.map_values(|p: ParaTagModel| demoted_para_tag(p)),
        ),
        _ => t,
    }
}

/// An entry with the links of its grammatical annotations demoted.
pub open spec fn demoted_entry(e: TaggedEntryModel) -> TaggedEntryModel {
    TaggedEntryModel {
        tocid: e.tocid,
        tags: e.tags.map_values(|t: EntryTagModel| demoted_block(t)),
        word: e.word,
    }
}

/// Tells whether `text` ends with `pat`.
pub fn text_ends_with(text: &[char], pat: &str) -> (b: bool)
    ensures
        b == ends_with(text@, pat@),
{
    let n = pat.unicode_len();
    if n > text.len() {
        return false;
    }
    eat(text, text.len() - n, pat).is_some()
}

/// Tells whether `text` leads to a link.
pub fn text_leads_to_ref(text: &str) -> (b: bool)
    ensures
        b == leads_to_ref(text@),
{
    let buf = chars_of(text);
    text_ends_with(buf.as_slice(), "See ") || text_ends_with(buf.as_slice(), "see ")
        || text_ends_with(buf.as_slice(), "of ")
}

/// Tells whether `c` has the property White_Space.
pub fn white_space(c: char) -> (b: bool)
    ensures
        b == is_white_space(c),
{
    let u = c as u32;
    (0x9 <= u && u <= 0xd) || u == 0x20 || u == 0x85 || u == 0xa0 || u == 0x1680 || (0x2000 <= u && u
        <= 0x200a) || u == 0x2028 || u == 0x2029 || u == 0x202f || u == 0x205f || u == 0x3000
}

/// Finds where `text` starts and ends once the white space at its start and
/// at its end is left aside.
pub fn trim(text: &[char]) -> (r: (usize, usize))
    ensures
        r.0 <= r.1 <= text.len(),
        text@.subrange(r.0 as int, r.1 as int) == trimmed(text@),
{
    let ghost s = text@;
    let mut a: usize = 0;
    proof {
        assert(s.subrange(0, s.len() as int) =~= s);
    }
    while a < text.len() && white_space(text[a])
        invariant
            s == text@,
            a <= text.len(),
            trim_start(s) == trim_start(s.subrange(a as int, s.len() as int)),
        decreases text.len() - a,
    {
        proof {
            let t = s.subrange(a as int, s.len() as int);
            assert(t[0] == s[a as int]);
            assert(t.drop_first() =~= s.subrange(a + 1, s.len() as int));
        }
        a = a + 1;
    }
    proof {
        let t = s.subrange(a as int, s.len() as int);
        if a < text.len() {
            assert(t[0] == s[a as int]);
        }
        assert(trim_start(s) == t);
    }
    let mut b: usize = text.len();
    while b > a && white_space(text[b - 1])
        invariant
            s == text@,
            a <= b <= text.len(),
            trimmed(s) == trim_end(s.subrange(a as int, b as int)),
        decreases b,
    {
        proof {
            let t = s.subrange(a as int, b as int);
            assert(t.last() == s[b - 1]);
            assert(t.drop_last() =~= s.subrange(a as int, b - 1));
        }
        b = b - 1;
    }
    proof {
        let t = s.subrange(a as int, b as int);
        if b > a {
            assert(t.last() == s[b - 1]);
        }
        assert(trim_end(t) == t);
    }
    (a, b)
}

/// Tells whether `text` is a comma with or without white space around it.
pub fn text_joins_refs(text: &str) -> (b: bool)
    ensures
        b == joins_refs(text@),
{
    let buf = chars_of(text);
    let (from, to) = trim(buf.as_slice());
    proof {
        reveal_strlit(",");
    }
    let one = to - from == 1 && buf[from] == ',';
    proof {
        let piece = buf@.subrange(from as int, to as int);
        if piece.len() == 1 {
            assert(piece[0] == buf@[from as int]);
        }
        assert(one == (piece =~= ","@));
    }
    one
}

/// A copy of `t`.
pub fn copy_simple_tag(t: &SimpleTag) -> (r: SimpleTag)
    ensures
        r@ == t@,
{
    match t {
        SimpleTag::Bold(text) => SimpleTag::Bold(text.clone()),
        SimpleTag::BoxedPlain(text) => SimpleTag::BoxedPlain(text.clone()),
        SimpleTag::BreakTag => SimpleTag::BreakTag,
        SimpleTag::Emph(text) => SimpleTag::Emph(text.clone()),
        SimpleTag::Plain(text) => SimpleTag::Plain(text.clone()),
        SimpleTag::SmallB(text) => SimpleTag::SmallB(text.clone()),
        SimpleTag::Sub(text) => SimpleTag::Sub(text.clone()),
        SimpleTag::Sup(text) => SimpleTag::Sup(text.clone()),
        SimpleTag::WordRef(id, text) => SimpleTag::WordRef(*id, text.clone()),
    }
}

/// A copy of `tags`.
pub fn copy_inline(tags: &Vec<SimpleTag>) -> (r: Vec<SimpleTag>)
    ensures
        inline_views(r@) == inline_views(tags@),
{
    let mut out: Vec<SimpleTag> = Vec::new();
    let mut i: usize = 0;
    while i < tags.len()
        invariant
            i <= tags.len(),
            inline_views(out@) == inline_views(tags@).take(i as int),
        decreases tags.len() - i,
    {
        let t = copy_simple_tag(&tags[i]);
        proof {
            let all = inline_views(tags@);
            assert(all[i as int] == tags@[i as int]@);
            assert(inline_views(out@.push(t)) =~= inline_views(out@).push(t@));
            assert(all.take(i + 1) =~= all.take(i as int).push(all[i as int]));
        }
        out.push(t);
        i = i + 1;
    }
    assert(inline_views(tags@).take(i as int) =~= inline_views(tags@));
    out
}

/// Turns every link of an annotation that nothing leads to into small bold
/// text. A link is led to by text that ends with `See `, `see ` or `of `, and
/// by a comma after a link that was kept.
pub fn demote_refs(tags: &Vec<SimpleTag>) -> (r: Vec<SimpleTag>)
    ensures
        inline_views(r@) == demoted(inline_views(tags@), false),
{
    let ghost models = inline_views(tags@);
    let mut out: Vec<SimpleTag> = Vec::new();
    let mut keep_ref = false;
    let mut i: usize = 0;
    proof {
        assert(models.skip(0) =~= models);
        assert(inline_views(out@) + demoted(models.skip(0), keep_ref) =~= demoted(models, false));
    }
    while i < tags.len()
        invariant
            i <= tags.len(),
            models == inline_views(tags@),
            inline_views(out@) + demoted(models.skip(i as int), keep_ref) == demoted(models, false),
        decreases tags.len() - i,
    {
        let ghost before = inline_views(out@);
        let ghost rest = models.skip(i as int);
        let ghost keep0 = keep_ref;
        proof {
            assert(rest[0] == tags@[i as int]@);
            assert(rest.drop_first() =~= models.skip(i + 1));
        }
        match &tags[i] {
            SimpleTag::Plain(text) => {
                if keep_ref {
                    keep_ref = text_joins_refs(text.as_str());
                } else {
                    keep_ref = text_leads_to_ref(text.as_str());
                }
                out.push(SimpleTag::Plain(text.clone()));
            },
            SimpleTag::WordRef(id, text) => {
                if keep_ref {
                    out.push(SimpleTag::WordRef(*id, text.clone()));
                } else {
                    out.push(SimpleTag::SmallB(text.clone()));
                }
            },
            other => {
                keep_ref = false;
                out.push(copy_simple_tag(other));
            },
        }
        proof {
            let (t, keep) = demoted_tag(rest[0], keep0);
            assert(keep == keep_ref);
            assert(inline_views(out@) =~= before.push(t));
            assert(before.push(t) + demoted(models.skip(i + 1), keep) =~= before + demoted(
                rest,
                keep0,
            ));
        }
        i = i + 1;
    }
    assert(inline_views(out@) + demoted(models.skip(i as int), keep_ref) =~= inline_views(out@));
    out
}

/// A paragraph tag with the links of a grammatical annotation demoted.
pub fn demote_in_para_tag(t: &ParaTag) -> (r: ParaTag)
    ensures
        r@ == demoted_para_tag(t@),
{
    match t {
        ParaTag::Strong(text) => ParaTag::Strong(text.clone()),
        ParaTag::Boxed(tags) => ParaTag::Boxed(copy_inline(tags)),
        ParaTag::BoxedGrammar(tags) => ParaTag::BoxedGrammar(demote_refs(tags)),
        ParaTag::Simple(tags) => ParaTag::Simple(copy_inline(tags)),
    }
}

/// A block with the links of its grammatical annotations demoted.
pub fn demote_in_block(t: &EntryTag) -> (r: EntryTag)
    ensures
        r@ == demoted_block(t@),
{
    match t {
        EntryTag::Blockquote(tags, author) => {
            let name = match author {
                Some(a) => Some(a.clone()),
                None => None,
            };
            EntryTag::Blockquote(copy_inline(tags), name)
        },
        EntryTag::Para(tags) => {
            let ghost models = para_views(tags@);
            let ghost f = |p: ParaTagModel| demoted_para_tag(p);
            let mut out: Vec<ParaTag> = Vec::new();
            let mut i: usize = 0;
            while i < tags.len()
                invariant
                    i <= tags.len(),
                    models == para_views(tags@),
                    f == |p: ParaTagModel| demoted_para_tag(p),
                    para_views(out@) == models.map_values(f).take(i as int),
                decreases tags.len() - i,
            {
                let t = demote_in_para_tag(&tags[i]);
                proof {
                    let all = models.map_values(f);
                    assert(models[i as int] == tags@[i as int]@);
                    assert(all[i as int] == f(models[i as int]));
                    assert(para_views(out@.push(t)) =~= para_views(out@).push(t@));
                    assert(all.take(i + 1) =~= all.take(i as int).push(all[i as int]));
                }
                out.push(t);
                i = i + 1;
            }
            assert(models.map_values(f).take(i as int) =~= models.map_values(f));
            EntryTag::Para(out)
        },
        EntryTag::Pre(text) => EntryTag::Pre(text.clone()),
        EntryTag::LineBreak => EntryTag::LineBreak,
    }
}

/// The entry with the links of its grammatical annotations demoted: in every
/// such annotation, a link that no text leads to becomes small bold text.
/// Everything else stays as it is.
pub fn demote_word_refs(entry: &TaggedEntry) -> (r: TaggedEntry)
    ensures
        r@ == demoted_entry(entry@),
{
    let ghost models = block_views(entry.tags@);
    let ghost f = |t: EntryTagModel| demoted_block(t);
    let mut out: Vec<EntryTag> = Vec::new();
    let mut i: usize = 0;
    while i < entry.tags.len()
        invariant
            i <= entry.tags.len(),
            models == block_views(entry.tags@),
            f == |t: EntryTagModel| demoted_block(t),
            block_views(out@) == models.map_values(f).take(i as int),
        decreases entry.tags.len() - i,
    {
        let t = demote_in_block(&entry.tags[i]);
        proof {
            let all = models.map_values(f);
            assert(models[i as int] == entry.tags@[i as int]@);
            assert(all[i as int] == f(models[i as int]));
            assert(block_views(out@.push(t)) =~= block_views(out@).push(t@));
            assert(all.take(i + 1) =~= all.take(i as int).push(all[i as int]));
        }
        out.push(t);
        i = i + 1;
    }
    assert(models.map_values(f).take(i as int) =~= models.map_values(f));
    TaggedEntry { tocid: entry.tocid, tags: out, word: entry.word.clone() }
}

} // verus!
