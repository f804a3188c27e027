//! The document cursor: yields the entries of a document one after the other,
//! each with the text that was skipped before it.

use vstd::prelude::*;
use vstd::slice::slice_subrange;
use vstd::string::StrSliceExecFns;
use crate::grammar::parse_entry_spec;
use crate::locate::{
    entry_start, find_entry_end, find_entry_start, first_entry, lemma_first_entry, unterminated,
};
use crate::parser::parse_entry_chars;
use crate::tags::TaggedEntry;
use crate::text::{chars_of, string_of};

verus! {

/// A forward-only cursor over a document. Its view is the text that it has
/// not consumed yet.
pub struct Parser<'a> {
    contents: &'a str,
    buf: Vec<char>,
    pos: usize,
}

/// What the cursor makes of an entry's text: the tree where the text parses,
/// the text itself where it does not.
pub open spec fn is_outcome(res: Result<TaggedEntry, String>, span: Seq<char>) -> bool {
    match res {
        Ok(t) => parse_entry_spec(span) == Some(t@),
        Err(raw) => parse_entry_spec(span) is None && raw@ == span,
    }
}

/// One step of the cursor from the text `before`: where an entry is found,
/// the item holds the text before its opening marker and the outcome for its
/// text, and `after` is what follows the entry; where none is found, there is
/// no item and nothing is consumed.
pub open spec fn is_step(
    before: Seq<char>,
    item: Option<(String, Result<TaggedEntry, String>)>,
    after: Seq<char>,
) -> bool {
    match first_entry(before) {
        Some((open, end)) => {
            &&& item matches Some((skipped, res))
            &&& skipped@ == before.subrange(0, open)
            &&& is_outcome(res, before.subrange(open, end))
            &&& after == before.subrange(end, before.len() as int)
        },
        None => item is None && after == before,
    }
}

impl<'a> View for Parser<'a> {
    type V = Seq<char>;

    closed spec fn view(&self) -> Seq<char> {
        self.buf@.subrange(self.pos as int, self.buf@.len() as int)
    }
}

impl<'a> Parser<'a> {
    #[verifier::type_invariant]
    spec fn within(self) -> bool {
        self.buf@ == self.contents@ && self.pos <= self.buf@.len()
    }

    /// A cursor at the start of `contents`.
    pub fn new(contents: &'a str) -> (p: Parser<'a>)
        ensures
            p@ == contents@,
    {
        let buf = chars_of(contents);
        assert(buf@.subrange(0, buf@.len() as int) =~= buf@);
        Parser { contents, buf, pos: 0 }
    }

    /// The text that has not been consumed.
    pub fn remaining(&self) -> (r: &'a str)
        ensures
            r@ == self@,
    {
        proof {
            use_type_invariant(self);
        }
        self.contents.substring_char(self.pos, self.buf.len())
    }

    /// Tells whether the next entry has an opening marker and no end: the
    /// traversal cannot go on past such an entry.
    pub fn is_unterminated(&self) -> (b: bool)
        ensures
            b == unterminated(self@),
    {
        proof {
            use_type_invariant(self);
        }
        let rest = slice_subrange(self.buf.as_slice(), self.pos, self.buf.len());
        match find_entry_start(rest) {
            Some(open) => find_entry_end(rest, open).is_none(),
            None => false,
        }
    }

    /// Yields the next entry with the text skipped before it, and moves past
    /// it; `None` where no entry is left, and the cursor stays where it is.
    /// The entry comes as its tree where its text parses, and as its text
    /// where it does not: the cursor moves past it either way.
    pub fn next(&mut self) -> (r: Option<(String, Result<TaggedEntry, String>)>)
        requires
            !unterminated(old(self)@),
        ensures
            is_step(old(self)@, r, final(self)@),
    {
        proof {
            use_type_invariant(&*self);
        }
        let rest = slice_subrange(self.buf.as_slice(), self.pos, self.buf.len());
        let open = match find_entry_start(rest) {
            Some(open) => open,
            None => {
                return None;
            },
        };
        proof {
            lemma_first_entry(rest@);
        }
        let end = match find_entry_end(rest, open) {
            Some(end) => end,
            None => {
                return None;
            },
        };
        let skipped = string_of(rest, 0, open);
        let span = slice_subrange(rest, open, end);
        let res = match parse_entry_chars(span) {
            Some(t) => Ok(t),
            None => Err(string_of(rest, open, end)),
        };
        let ghost before = self@;
        self.pos = self.pos + end;
        assert(self@ =~= before.subrange(end as int, before.len() as int));
        Some((skipped, res))
    }

    /// As `next`, for any document: where the next entry has no end, the
    /// error holds the text from its opening marker on and the cursor stays
    /// where it is.
    pub fn try_next(&mut self) -> (r: Result<Option<(String, Result<TaggedEntry, String>)>, String>)
        ensures
            match r {
                Ok(item) => !unterminated(old(self)@) && is_step(old(self)@, item, final(self)@),
                Err(raw) => {
                    &&& unterminated(old(self)@)
                    &&& final(self)@ == old(self)@
                    &&& entry_start(old(self)@) matches Some(open)
                    &&& raw@ == old(self)@.subrange(open, old(self)@.len() as int)
                },
            },
    {
        proof {
            use_type_invariant(&*self);
        }
        let rest = slice_subrange(self.buf.as_slice(), self.pos, self.buf.len());
        let open = match find_entry_start(rest) {
            Some(open) => open,
            None => {
                return Ok(None);
            },
        };
        proof {
            lemma_first_entry(rest@);
        }
        let end = match find_entry_end(rest, open) {
            Some(end) => end,
            None => {
                return Err(string_of(rest, open, rest.len()));
            },
        };
        let skipped = string_of(rest, 0, open);
        let span = slice_subrange(rest, open, end);
        let res = match parse_entry_chars(span) {
            Some(t) => Ok(t),
            None => Err(string_of(rest, open, end)),
        };
        let ghost before = self@;
        self.pos = self.pos + end;
        assert(self@ =~= before.subrange(end as int, before.len() as int));
        Ok(Some((skipped, res)))
    }
}

} // verus!
