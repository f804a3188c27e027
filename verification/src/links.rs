//! Link targets and the words that stand for them: a record of which word
//! each target is known by, to find links whose text is another word.

use std::collections::BTreeMap;
use vstd::prelude::*;
use crate::words::{strip_stress, strip_stress_spec};

verus! {

/// `text` in lower case, as `str::to_lowercase` of the standard library
/// gives it.
pub uninterp spec fn lowercased(text: Seq<char>) -> Seq<char>;

/// `str::to_lowercase` of the standard library. The contract names what
/// comes back.
#[verifier::external_body]
fn to_lowercase(text: &str) -> (r: String)
    ensures
        r@ == lowercased(text@),
{
    text.to_lowercase()
}

/// The record as a map from targets to words and whether each word comes
/// from the target's own entry.
pub open spec fn word_map(m: Map<u32, (String, bool)>) -> Map<u32, (Seq<char>, bool)> {
    Map::new(|k: u32| m.contains_key(k), |k: u32| (m[k].0@, m[k].1))
}

/// The word by which a text is recorded: without stress marks, in lower
/// case.
pub open spec fn recorded_word(value: Seq<char>) -> Seq<char> {
    lowercased(strip_stress_spec(value))
}

/// The record after `word` was met for `key`, and whether the record held
/// another word for `key`. A target that was not recorded is recorded. One
/// that was is recorded anew where the word comes from the target's own
/// entry, or the recorded word did not.
pub open spec fn smart_insert(m: Map<u32, (Seq<char>, bool)>, key: u32, word: Seq<char>, def: bool) -> (
    Map<u32, (Seq<char>, bool)>,
    bool,
) {
    if m.contains_key(key) {
        (
            if def || !m[key].1 {
                m.insert(key, (word, def))
            } else {
                m
            },
            m[key].0 != word,
        )
    } else {
        (m.insert(key, (word, def)), false)
    }
}

/// Records the word of `value` for `key`, and tells whether the record held
/// another word for `key`. `def` says whether the word comes from the
/// target's own entry.
pub fn map_smart_insert(map: &mut BTreeMap<u32, (String, bool)>, key: u32, value: &str, def: bool) -> (is_diff:
    bool)
    ensures
        (word_map(final(map)@), is_diff) == smart_insert(
            word_map(old(map)@),
            key,
            recorded_word(value@),
            def,
        ),
{
    let word = to_lowercase(strip_stress(value).as_str());
    let (is_diff, do_insert) = match map.get(&key) {
        Some(known) => (!known.0.eq(&word), def || !known.1),
        None => (false, true),
    };
    if do_insert {
        map.insert(key, (word, def));
    }
    proof {
        let (after, _) = smart_insert(word_map(old(map)@), key, recorded_word(value@), def);
        assert(word_map(map@) =~= after);
    }
    is_diff
}

} // verus!
