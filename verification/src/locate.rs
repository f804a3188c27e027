//! The entry locator: where the next entry of a document starts and ends.
//!
//! An entry starts at the opening marker. It ends with the first terminating
//! marker that follows: after the closing marker, or before the next opening
//! marker, whichever comes first.

use vstd::prelude::*;
use crate::text::{eat, find_at, first_at, lemma_first_at};

verus! {

/// The opening marker of an entry.
pub const ENTRY_OPEN: &'static str = "<div id=\"MBP_";

/// The closing marker of an entry.
pub const ENTRY_CLOSE: &'static str = "</div>\n";

/// Where the first entry of `s` starts.
pub open spec fn entry_start(s: Seq<char>) -> Option<int> {
    first_at(s, 0, ENTRY_OPEN@)
}

/// Where the entry that starts at `open` ends: at the earliest terminating
/// marker after its opening marker. A closing marker belongs to the entry, a
/// further opening marker does not.
pub open spec fn entry_end(s: Seq<char>, open: int) -> Option<int> {
    match (first_at(s, open, ENTRY_CLOSE@), first_at(s, open + 1, ENTRY_OPEN@)) {
        (Some(c), Some(n)) => if c < n {
            Some(c + ENTRY_CLOSE@.len())
        } else {
            Some(n)
        },
        (Some(c), None) => Some(c + ENTRY_CLOSE@.len()),
        (None, Some(n)) => Some(n),
        (None, None) => None,
    }
}

/// The first entry of `s`: the index of its opening marker and the index
/// after its last character.
pub open spec fn first_entry(s: Seq<char>) -> Option<(int, int)> {
    match entry_start(s) {
        Some(open) => match entry_end(s, open) {
            Some(end) => Some((open, end)),
            None => None,
        },
        None => None,
    }
}

/// An opening marker stands in `s`, and no terminating marker after it.
pub open spec fn unterminated(s: Seq<char>) -> bool {
    match entry_start(s) {
        Some(open) => entry_end(s, open) is None,
        None => false,
    }
}

/// The first entry lies within the text and is not empty.
pub proof fn lemma_first_entry(s: Seq<char>)
    ensures
        first_entry(s) matches Some((open, end)) ==> 0 <= open < end <= s.len(),
{
    reveal_strlit("</div>\n");
    lemma_first_at(s, 0, ENTRY_OPEN@);
    if let Some(open) = entry_start(s) {
        lemma_first_at(s, open, ENTRY_CLOSE@);
        lemma_first_at(s, open + 1, ENTRY_OPEN@);
    }
}

/// Finds the opening marker of the first entry.
pub fn find_entry_start(buf: &[char]) -> (r: Option<usize>)
    ensures
        match r {
            Some(open) => entry_start(buf@) == Some(open as int) && open < buf.len(),
            None => entry_start(buf@) is None,
        },
{
    proof {
        reveal_strlit("<div id=\"MBP_");
        lemma_first_at(buf@, 0, ENTRY_OPEN@);
    }
    match find_at(buf, 0, ENTRY_OPEN) {
        Some((open, _)) => Some(open),
        None => None,
    }
}

/// Finds the end of the entry that starts at `open`, in one scan that stops
/// at the nearest terminating marker.
pub fn find_entry_end(buf: &[char], open: usize) -> (r: Option<usize>)
    ensures
        match r {
            Some(end) => entry_end(buf@, open as int) == Some(end as int),
            None => entry_end(buf@, open as int) is None,
        },
{
    let ghost s = buf@;
    if open >= buf.len() {
        proof {
            reveal_strlit("</div>\n");
        }
        return None;
    }
    match eat(buf, open, ENTRY_CLOSE) {
        Some(e) => {
            proof {
                lemma_first_at(s, open + 1, ENTRY_OPEN@);
            }
            return Some(e);
        },
        None => {},
    }
    let mut i: usize = open + 1;
    loop
        invariant
            s == buf@,
            open < i <= buf.len(),
            first_at(s, open as int, ENTRY_CLOSE@) == first_at(s, i as int, ENTRY_CLOSE@),
            first_at(s, open + 1, ENTRY_OPEN@) == first_at(s, i as int, ENTRY_OPEN@),
        decreases buf.len() - i,
    {
        if eat(buf, i, ENTRY_OPEN).is_some() {
            proof {
                lemma_first_at(s, i as int, ENTRY_CLOSE@);
            }
            return Some(i);
        }
        match eat(buf, i, ENTRY_CLOSE) {
            Some(e) => {
                proof {
                    lemma_first_at(s, i as int, ENTRY_OPEN@);
                }
                return Some(e);
            },
            None => {},
        }
        if i >= buf.len() {
            return None;
        }
        i = i + 1;
    }
}

} // verus!
