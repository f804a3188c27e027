//! An entry before its body is parsed: the headword, the identifier, and the
//! body and what follows it as text.

use vstd::prelude::*;
use vstd::string::StringExecFns;
use crate::hex::{push_upper_hex, upper_hex};
use crate::words::{
    ascii_representable, is_ascii_representable, word_to_ascii, word_to_ascii_spec,
};

verus! {

broadcast use vstd::string::group_string_axioms;

/// An entry with its body unparsed.
#[derive(Debug, Clone, PartialEq, Eq)]
pub struct RawEntry {
    pub word: String,
    pub tocid: u32,
    pub body: String,
    pub extras: String,
}

/// The model of a `RawEntry`.
pub struct RawEntryModel {
    pub word: Seq<char>,
    pub tocid: u32,
    pub body: Seq<char>,
    pub extras: Seq<char>,
}

impl View for RawEntry {
    type V = RawEntryModel;

    open spec fn view(&self) -> RawEntryModel {
        RawEntryModel { word: self.word@, tocid: self.tocid, body: self.body@, extras: self.extras@ }
    }
}

/// The headword can stand in the opening marker: it has an ASCII form, and
/// that form holds no double quote.
pub open spec fn can_head(word: Seq<char>) -> bool {
    ascii_representable(word) && !word_to_ascii_spec(word).contains('"')
}

/// Tells whether the headword can stand in the opening marker.
pub fn word_can_head(word: &str) -> (b: bool)
    ensures
        b == can_head(word@),
{
    if !is_ascii_representable(word) {
        return false;
    }
    let ascii_word = word_to_ascii(word);
    for c in it: ascii_word.as_str().chars()
        invariant
            it.seq() == ascii_word@,
            ascii_representable(word@),
            ascii_word@ == word_to_ascii_spec(word@),
            forall|i: int| 0 <= i < it.index() ==> ascii_word@[i] != '"',
    {
        if c == '"' {
            assert(ascii_word@[it.index()] == '"');
            return false;
        }
    }
    true
}

/// The markup of an unparsed entry: the opening marker with the identifier
/// and the headword's ASCII form, a paragraph that starts with the headword
/// as a sub-entry marker and goes on with the body, what follows the
/// paragraph, and the closing marker.
pub open spec fn raw_markup(e: RawEntryModel) -> Seq<char> {
    "<div id=\"MBP_TOC_"@ + upper_hex(e.tocid as nat) + "\" data-ascii=\""@ + word_to_ascii_spec(e.word)
        + "\">\n"@ + "<p><strong>"@ + e.word + "</strong>"@ + e.body + "</p>"@ + e.extras
        + "</div>\n"@
}

/// Appends the markup of an unparsed entry to `out`.
pub fn write_html(out: &mut String, entry: &RawEntry)
    requires
        can_head(entry.word@),
    ensures
        final(out)@ == old(out)@ + raw_markup(entry@),
{
    let ascii_word = word_to_ascii(entry.word.as_str());
    out.append("<div id=\"MBP_TOC_");
    push_upper_hex(out, entry.tocid);
    out.append("\" data-ascii=\"");
    out.append(ascii_word.as_str());
    out.append("\">\n");
    out.append("<p><strong>");
    out.append(entry.word.as_str());
    out.append("</strong>");
    out.append(entry.body.as_str());
    out.append("</p>");
    out.append(entry.extras.as_str());
    out.append("</div>\n");
    assert(out@ =~= old(out)@ + raw_markup(entry@));
}

} // verus!
