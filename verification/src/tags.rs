//! The tag tree of an entry, and its markup.
//!
//! Each tree type has a model, a value of the same shape that holds sequences
//! of characters in place of strings and vectors. The markup of a tree is a
//! function of its model; the `fmt` methods write exactly that markup.

use vstd::prelude::*;
use vstd::string::StringExecFns;
use crate::hex::{push_upper_hex, upper_hex};
use crate::text::{join, lemma_join_push};

verus! {

/// An inline tag.
#[derive(Debug, Clone, PartialEq, Eq)]
pub enum SimpleTag {
    Bold(String),
    BoxedPlain(String),
    BreakTag,
    Emph(String),
    Plain(String),
    SmallB(String),
    Sub(String),
    Sup(String),
    /// A link to another entry: the target's identifier and the text shown.
    WordRef(u32, String),
}

/// What stands inside a paragraph.
#[derive(Debug, Clone, PartialEq, Eq)]
pub enum ParaTag {
    /// A bolded sub-entry marker.
    Strong(String),
    /// A bracketed annotation.
    Boxed(Vec<SimpleTag>),
    /// A bracketed annotation that opens with a grammatical abbreviation.
    BoxedGrammar(Vec<SimpleTag>),
    /// A plain run of inline tags.
    Simple(Vec<SimpleTag>),
}

/// A block of an entry.
#[derive(Debug, Clone, PartialEq, Eq)]
pub enum EntryTag {
    /// A quoted passage, and who is quoted where that is given.
    Blockquote(Vec<SimpleTag>, Option<String>),
    Para(Vec<ParaTag>),
    /// Preformatted text, kept as it is.
    Pre(String),
    LineBreak,
}

/// An entry as a tree of tags.
#[derive(Debug, Clone, PartialEq, Eq)]
pub struct TaggedEntry {
    pub tocid: u32,
    pub tags: Vec<EntryTag>,
    pub word: String,
}

/// The model of a `SimpleTag`.
pub enum SimpleTagModel {
    Bold(Seq<char>),
    BoxedPlain(Seq<char>),
    BreakTag,
    Emph(Seq<char>),
    Plain(Seq<char>),
    SmallB(Seq<char>),
    Sub(Seq<char>),
    Sup(Seq<char>),
    WordRef(u32, Seq<char>),
}

/// The model of a `ParaTag`.
pub enum ParaTagModel {
    Strong(Seq<char>),
    Boxed(Seq<SimpleTagModel>),
    BoxedGrammar(Seq<SimpleTagModel>),
    Simple(Seq<SimpleTagModel>),
}

/// The model of an `EntryTag`.
pub enum EntryTagModel {
    Blockquote(Seq<SimpleTagModel>, Option<Seq<char>>),
    Para(Seq<ParaTagModel>),
    Pre(Seq<char>),
    LineBreak,
}

/// The model of a `TaggedEntry`.
pub struct TaggedEntryModel {
    pub tocid: u32,
    pub tags: Seq<EntryTagModel>,
    pub word: Seq<char>,
}

impl View for SimpleTag {
    type V = SimpleTagModel;

    open spec fn view(&self) -> SimpleTagModel {
        match *self {
            SimpleTag::Bold(text) => SimpleTagModel::Bold(text@),
            SimpleTag::BoxedPlain(text) => SimpleTagModel::BoxedPlain(text@),
            SimpleTag::BreakTag => SimpleTagModel::BreakTag,
            SimpleTag::Emph(text) => SimpleTagModel::Emph(text@),
            SimpleTag::Plain(text) => SimpleTagModel::Plain(text@),
            SimpleTag::SmallB(text) => SimpleTagModel::SmallB(text@),
            SimpleTag::Sub(text) => SimpleTagModel::Sub(text@),
            SimpleTag::Sup(text) => SimpleTagModel::Sup(text@),
            SimpleTag::WordRef(id, text) => SimpleTagModel::WordRef(id, text@),
        }
    }
}

/// The models of a sequence of inline tags.
pub open spec fn inline_views(tags: Seq<SimpleTag>) -> Seq<SimpleTagModel> {
    tags.map_values(|t: SimpleTag| t@)
}

impl View for ParaTag {
    type V = ParaTagModel;

    open spec fn view(&self) -> ParaTagModel {
        match *self {
            ParaTag::Strong(text) => ParaTagModel::Strong(text@),
            ParaTag::Boxed(tags) => ParaTagModel::Boxed(inline_views(tags@)),
            ParaTag::BoxedGrammar(tags) => ParaTagModel::BoxedGrammar(inline_views(tags@)),
            ParaTag::Simple(tags) => ParaTagModel::Simple(inline_views(tags@)),
        }
    }
}

/// The models of a sequence of paragraph tags.
pub open spec fn para_views(tags: Seq<ParaTag>) -> Seq<ParaTagModel> {
    tags.map_values(|t: ParaTag| t@)
}

/// The model of an attribution.
pub open spec fn author_view(author: Option<String>) -> Option<Seq<char>> {
    match author {
        Some(a) => Some(a@),
        None => None,
    }
}

impl View for EntryTag {
    type V = EntryTagModel;

    open spec fn view(&self) -> EntryTagModel {
        match *self {
            EntryTag::Blockquote(tags, author) => EntryTagModel::Blockquote(
                inline_views(tags@),
                author_view(author),
            ),
            EntryTag::Para(tags) => EntryTagModel::Para(para_views(tags@)),
            EntryTag::Pre(text) => EntryTagModel::Pre(text@),
            EntryTag::LineBreak => EntryTagModel::LineBreak,
        }
    }
}

/// The models of a sequence of blocks.
pub open spec fn block_views(tags: Seq<EntryTag>) -> Seq<EntryTagModel> {
    tags.map_values(|t: EntryTag| t@)
}

impl View for TaggedEntry {
    type V = TaggedEntryModel;

    open spec fn view(&self) -> TaggedEntryModel {
        TaggedEntryModel { tocid: self.tocid, tags: block_views(self.tags@), word: self.word@ }
    }
}

/// The markup of an inline tag.
pub open spec fn simple_markup(t: SimpleTagModel) -> Seq<char> {
    match t {
        SimpleTagModel::Bold(text) => "<b>"@ + text + "</b>"@,
        SimpleTagModel::BoxedPlain(text) => "["@ + text + "]"@,
        SimpleTagModel::BreakTag => "<br>\n"@,
        SimpleTagModel::Emph(text) => "<i>"@ + text + "</i>"@,
        SimpleTagModel::Plain(text) => text,
        SimpleTagModel::SmallB(text) => "<small><b>"@ + text + "</b></small>"@,
        SimpleTagModel::Sub(text) => "<sub>"@ + text + "</sub>"@,
        SimpleTagModel::Sup(text) => "<sup>"@ + text + "</sup>"@,
        SimpleTagModel::WordRef(id, text) => "<a href=\"#MBP_TOC_"@ + upper_hex(id as nat) + "\">"@
            + text + "</a>"@,
    }
}

/// The markup of a sequence of inline tags.
pub open spec fn inline_markup(tags: Seq<SimpleTagModel>) -> Seq<char> {
    join(tags, |t: SimpleTagModel| simple_markup(t))
}

/// The markup of a paragraph tag.
pub open spec fn para_markup(t: ParaTagModel) -> Seq<char> {
    match t {
        ParaTagModel::Strong(text) => "<strong>"@ + text + "</strong>"@,
        ParaTagModel::Boxed(tags) => "["@ + inline_markup(tags) + "]"@,
        ParaTagModel::BoxedGrammar(tags) => "["@ + inline_markup(tags) + "]"@,
        ParaTagModel::Simple(tags) => inline_markup(tags),
    }
}

/// The markup of a sequence of paragraph tags.
pub open spec fn paras_markup(tags: Seq<ParaTagModel>) -> Seq<char> {
    join(tags, |t: ParaTagModel| para_markup(t))
}

/// The markup of an attribution: nothing where there is none.
pub open spec fn author_markup(author: Option<Seq<char>>) -> Seq<char> {
    match author {
        Some(a) => "\u{2015}<i>"@ + a + "</i>"@,
        None => Seq::empty(),
    }
}

/// The markup of a block.
pub open spec fn block_markup(t: EntryTagModel) -> Seq<char> {
    match t {
        EntryTagModel::Blockquote(tags, author) => "<blockquote>\n"@ + "<p>"@ + inline_markup(tags)
            + "</p>\n"@ + author_markup(author) + "</blockquote>\n"@,
        EntryTagModel::Para(tags) => "<p>"@ + paras_markup(tags) + "</p>\n"@,
        EntryTagModel::Pre(text) => "<pre>"@ + text + "</pre>"@,
        EntryTagModel::LineBreak => "\n"@,
    }
}

/// The markup of a sequence of blocks.
pub open spec fn blocks_markup(tags: Seq<EntryTagModel>) -> Seq<char> {
    join(tags, |t: EntryTagModel| block_markup(t))
}

/// The opening marker of an entry: the identifier in upper-case hexadecimal,
/// and the headword.
pub open spec fn head_markup(tocid: u32, word: Seq<char>) -> Seq<char> {
    "<div id=\"MBP_TOC_"@ + upper_hex(tocid as nat) + "\" data-ascii=\""@ + word + "\">\n"@
}

/// The markup of an entry: the opening marker, the blocks, the closing marker.
pub open spec fn entry_markup(e: TaggedEntryModel) -> Seq<char> {
    head_markup(e.tocid, e.word) + blocks_markup(e.tags) + "</div>\n"@
}

impl SimpleTag {
    /// Appends the tag's markup to `f`.
    pub fn fmt(&self, f: &mut String)
        ensures
            final(f)@ == old(f)@ + simple_markup(self@),
    {
        match self {
            SimpleTag::Bold(text) => {
                f.append("<b>");
                f.append(text.as_str());
                f.append("</b>");
            },
            SimpleTag::BoxedPlain(text) => {
                f.append("[");
                f.append(text.as_str());
                f.append("]");
            },
            SimpleTag::BreakTag => {
                f.append("<br>\n");
            },
            SimpleTag::Emph(text) => {
                f.append("<i>");
                f.append(text.as_str());
                f.append("</i>");
            },
            SimpleTag::Plain(text) => {
                f.append(text.as_str());
            },
            SimpleTag::SmallB(text) => {
                f.append("<small><b>");
                f.append(text.as_str());
                f.append("</b></small>");
            },
            SimpleTag::Sub(text) => {
                f.append("<sub>");
                f.append(text.as_str());
                f.append("</sub>");
            },
            SimpleTag::Sup(text) => {
                f.append("<sup>");
                f.append(text.as_str());
                f.append("</sup>");
            },
            SimpleTag::WordRef(id, text) => {
                f.append("<a href=\"#MBP_TOC_");
                push_upper_hex(f, *id);
                f.append("\">");
                f.append(text.as_str());
                f.append("</a>");
            },
        }
        assert(f@ =~= old(f)@ + simple_markup(self@));
    }

    /// The tag's markup.
    pub fn to_string(&self) -> (s: String)
        ensures
            s@ == simple_markup(self@),
    {
        let mut s = String::new();
        self.fmt(&mut s);
        assert(s@ =~= simple_markup(self@));
        s
    }
}

/// Appends the markup of a sequence of inline tags to `f`.
pub fn fmt_inline(tags: &Vec<SimpleTag>, f: &mut String)
    ensures
        final(f)@ == old(f)@ + inline_markup(inline_views(tags@)),
{
    let ghost models = inline_views(tags@);
    let mut i: usize = 0;
    while i < tags.len()
        invariant
            i <= tags.len(),
            models == inline_views(tags@),
            f@ == old(f)@ + inline_markup(models.take(i as int)),
        decreases tags.len() - i,
    {
        proof {
            lemma_join_push(models.take(i as int), models[i as int], |t: SimpleTagModel| simple_markup(t));
            assert(models.take(i + 1) =~= models.take(i as int).push(models[i as int]));
        }
        tags[i].fmt(f);
        assert(f@ =~= old(f)@ + inline_markup(models.take(i + 1)));
        i = i + 1;
    }
    assert(models.take(i as int) =~= models);
}

impl ParaTag {
    /// Appends the tag's markup to `f`.
    pub fn fmt(&self, f: &mut String)
        ensures
            final(f)@ == old(f)@ + para_markup(self@),
    {
        match self {
            ParaTag::Strong(word) => {
                f.append("<strong>");
                f.append(word.as_str());
                f.append("</strong>");
            },
            ParaTag::Boxed(tags) => {
                f.append("[");
                fmt_inline(tags, f);
                f.append("]");
            },
            ParaTag::BoxedGrammar(tags) => {
                f.append("[");
                fmt_inline(tags, f);
                f.append("]");
            },
            ParaTag::Simple(tags) => {
                fmt_inline(tags, f);
            },
        }
        assert(f@ =~= old(f)@ + para_markup(self@));
    }

    /// The tag's markup.
    pub fn to_string(&self) -> (s: String)
        ensures
            s@ == para_markup(self@),
    {
        let mut s = String::new();
        self.fmt(&mut s);
        assert(s@ =~= para_markup(self@));
        s
    }
}

/// Appends the markup of a sequence of paragraph tags to `f`.
pub fn fmt_paras(tags: &Vec<ParaTag>, f: &mut String)
    ensures
        final(f)@ == old(f)@ + paras_markup(para_views(tags@)),
{
    let ghost models = para_views(tags@);
    let mut i: usize = 0;
    while i < tags.len()
        invariant
            i <= tags.len(),
            models == para_views(tags@),
            f@ == old(f)@ + paras_markup(models.take(i as int)),
        decreases tags.len() - i,
    {
        proof {
            lemma_join_push(models.take(i as int), models[i as int], |t: ParaTagModel| para_markup(t));
            assert(models.take(i + 1) =~= models.take(i as int).push(models[i as int]));
        }
        tags[i].fmt(f);
        assert(f@ =~= old(f)@ + paras_markup(models.take(i + 1)));
        i = i + 1;
    }
    assert(models.take(i as int) =~= models);
}

impl EntryTag {
    /// Appends the block's markup to `f`.
    pub fn fmt(&self, f: &mut String)
        ensures
            final(f)@ == old(f)@ + block_markup(self@),
    {
        match self {
            EntryTag::Blockquote(tags, author_opt) => {
                f.append("<blockquote>\n");
                f.append("<p>");
                fmt_inline(tags, f);
                f.append("</p>\n");
                match author_opt {
                    Some(author) => {
                        f.append("\u{2015}<i>");
                        f.append(author.as_str());
                        f.append("</i>");
                    },
                    None => {},
                }
                f.append("</blockquote>\n");
            },
            EntryTag::Para(tags) => {
                f.append("<p>");
                fmt_paras(tags, f);
                f.append("</p>\n");
            },
            EntryTag::Pre(raw_html) => {
                f.append("<pre>");
                f.append(raw_html.as_str());
                f.append("</pre>");
            },
            EntryTag::LineBreak => {
                f.append("\n");
            },
        }
        assert(f@ =~= old(f)@ + block_markup(self@));
    }

    /// The block's markup.
    pub fn to_string(&self) -> (s: String)
        ensures
            s@ == block_markup(self@),
    {
        let mut s = String::new();
        self.fmt(&mut s);
        assert(s@ =~= block_markup(self@));
        s
    }
}

/// Appends the markup of a sequence of blocks to `f`.
pub fn fmt_blocks(tags: &Vec<EntryTag>, f: &mut String)
    ensures
        final(f)@ == old(f)@ + blocks_markup(block_views(tags@)),
{
    let ghost models = block_views(tags@);
    let mut i: usize = 0;
    while i < tags.len()
        invariant
            i <= tags.len(),
            models == block_views(tags@),
            f@ == old(f)@ + blocks_markup(models.take(i as int)),
        decreases tags.len() - i,
    {
        proof {
            lemma_join_push(models.take(i as int), models[i as int], |t: EntryTagModel| block_markup(t));
            assert(models.take(i + 1) =~= models.take(i as int).push(models[i as int]));
        }
        tags[i].fmt(f);
        assert(f@ =~= old(f)@ + blocks_markup(models.take(i + 1)));
        i = i + 1;
    }
    assert(models.take(i as int) =~= models);
}

impl TaggedEntry {
    /// Appends the entry's markup to `f`.
    pub fn fmt(&self, f: &mut String)
        ensures
            final(f)@ == old(f)@ + entry_markup(self@),
    {
        f.append("<div id=\"MBP_TOC_");
        push_upper_hex(f, self.tocid);
        f.append("\" data-ascii=\"");
        f.append(self.word.as_str());
        f.append("\">\n");
        fmt_blocks(&self.tags, f);
        f.append("</div>\n");
        assert(f@ =~= old(f)@ + entry_markup(self@));
    }

    /// The entry's markup.
    pub fn to_string(&self) -> (s: String)
        ensures
            s@ == entry_markup(self@),
    {
        let mut s = String::new();
        self.fmt(&mut s);
        assert(s@ =~= entry_markup(self@));
        s
    }
}

} // verus!
