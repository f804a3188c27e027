//! The characters beyond plain ASCII that the sub-entry markers of a
//! document hold, each with the character that follows it.

use std::collections::BTreeMap;
use vstd::prelude::*;
use vstd::slice::slice_subrange;
use crate::grammar::enclosed_until;
use crate::parser::read_enclosed_until;
use crate::roundtrip::lemma_enclosed_until;
use crate::text::{chars_of, find_at, first_at, lemma_first_at};
use crate::words::{strip_stress, strip_stress_spec};

verus! {

/// The character is noted: its code is below 20 or above 126.
pub open spec fn is_noted(u: u32) -> bool {
    !(u >= 20 && u < 127)
}

/// The notes with one more occurrence of `u`, followed by `following` (zero
/// where nothing follows). A character's note is what follows it, as long as
/// the same follows it everywhere, and zero from then on.
pub open spec fn noted(notes: Map<u32, u32>, u: u32, following: u32) -> Map<u32, u32> {
    if notes.contains_key(u) {
        if notes[u] != 0 && notes[u] != following {
            notes.insert(u, 0)
        } else {
            notes
        }
    } else {
        notes.insert(u, following)
    }
}

/// The notes with the noted characters of `w` from index `i` on.
pub open spec fn word_noted(notes: Map<u32, u32>, w: Seq<char>, i: int) -> Map<u32, u32>
    decreases w.len() - i,
{
    if i < 0 || i >= w.len() {
        notes
    } else {
        let u = w[i] as u32;
        let following = if i + 1 < w.len() {
            w[i + 1] as u32
        } else {
            0
        };
        word_noted(
            if is_noted(u) {
                noted(notes, u, following)
            } else {
                notes
            },
            w,
            i + 1,
        )
    }
}

/// The notes with the noted characters of every sub-entry marker of `s`,
/// stress marks left aside. `None` where a `<strong>` has no `</strong>`
/// after it.
pub open spec fn all_noted(notes: Map<u32, u32>, s: Seq<char>) -> Option<Map<u32, u32>>
    decreases s.len(),
{
    match first_at(s, 0, "<strong>"@) {
        Some(i) => match enclosed_until(s, i, "<strong>"@, "</strong>"@) {
            Some((word, e)) => if 0 < e <= s.len() {
                all_noted(
                    word_noted(notes, strip_stress_spec(word), 0),
                    s.subrange(e, s.len() as int),
                )
            } else {
                None
            },
            None => None,
        },
        None => Some(notes),
    }
}

/// The code of a character.
pub fn code(c: char) -> (u: u32)
    ensures
        u == c as u32,
{
    c as u32
}

/// Notes one more occurrence of `u`, followed by `following`.
pub fn note(notes: &mut BTreeMap<u32, u32>, u: u32, following: u32)
    ensures
        final(notes)@ == noted(old(notes)@, u, following),
{
    let prev = match notes.get(&u) {
        Some(p) => Some(*p),
        None => None,
    };
    match prev {
        Some(p) => {
            if p != 0 && p != following {
                notes.insert(u, 0);
            }
        },
        None => {
            notes.insert(u, following);
        },
    }
}

/// Notes the noted characters of `word`.
pub fn note_word(notes: &mut BTreeMap<u32, u32>, word: &[char])
    ensures
        final(notes)@ == word_noted(old(notes)@, word@, 0),
{
    let mut i: usize = 0;
    while i < word.len()
        invariant
            i <= word.len(),
            word_noted(notes@, word@, i as int) == word_noted(old(notes)@, word@, 0),
        decreases word.len() - i,
    {
        let u = code(word[i]);
        if !(u >= 20 && u < 127) {
            let following = if i + 1 < word.len() {
                code(word[i + 1])
            } else {
                0
            };
            note(notes, u, following);
        }
        i = i + 1;
    }
}

/// Notes the characters beyond plain ASCII of every sub-entry marker in
/// `contents`, stress marks left aside: each with the code of the character
/// that follows it, or with zero where different characters follow it or it
/// stands at the end of a marker. `None` where a `<strong>` has no
/// `</strong>` after it.
pub fn unicode_list(contents: &str) -> (r: Option<BTreeMap<u32, u32>>)
    ensures
        match r {
            Some(notes) => all_noted(Map::empty(), contents@) == Some(notes@),
            None => all_noted(Map::empty(), contents@) is None,
        },
{
    let buf = chars_of(contents);
    let mut notes: BTreeMap<u32, u32> = BTreeMap::new();
    let mut cur: usize = 0;
    proof {
        assert(buf@.subrange(0, buf@.len() as int) =~= buf@);
    }
    loop
        invariant
            cur <= buf.len(),
            buf@ == contents@,
            all_noted(Map::empty(), contents@) == all_noted(
                notes@,
                buf@.subrange(cur as int, buf@.len() as int),
            ),
        decreases buf.len() - cur,
    {
        let rest = slice_subrange(buf.as_slice(), cur, buf.len());
        let i = match find_at(rest, 0, "<strong>") {
            Some((i, _)) => i,
            None => {
                return Some(notes);
            },
        };
        let (word, e) = match read_enclosed_until(rest, i, "<strong>", "</strong>") {
            Some(r) => r,
            None => {
                return None;
            },
        };
        proof {
            reveal_strlit("<strong>");
            lemma_first_at(rest@, 0, "<strong>"@);
            lemma_enclosed_until(rest@, i as int, "<strong>"@, "</strong>"@);
            assert(("<strong>"@ + word@ + "</strong>"@).len() == rest@.subrange(i as int, e as int).len());
            assert(rest@.subrange(e as int, rest@.len() as int) =~= buf@.subrange(
                cur + e,
                buf@.len() as int,
            ));
        }
        let stripped = chars_of(strip_stress(word.as_str()).as_str());
        note_word(&mut notes, stripped.as_slice());
        cur = cur + e;
    }
}

} // verus!
