//! The word normalizer: headwords without stress marks, in ASCII, and as
//! lower-case identifiers.

use vstd::prelude::*;
use vstd::utf8::is_ascii_chars;
use crate::text::{join, lemma_join_all, lemma_join_push, lemma_join_same};

verus! {

broadcast use vstd::string::group_string_axioms;

/// The acute accent that marks a stressed syllable, or the bullet that
/// separates syllables.
pub open spec fn is_stress_mark(c: char) -> bool {
    c == '\u{b4}' || c == '\u{2022}'
}

/// `w` without its stress marks.
pub open spec fn strip_stress_spec(w: Seq<char>) -> Seq<char> {
    w.filter(|c: char| !is_stress_mark(c))
}

/// What the table puts in place of `c`, where it holds `c`.
pub open spec fn table_entry(c: char) -> Option<Seq<char>> {
    let u = c as u32;
    if u == 199 {
        Some(seq!['C'])
    } else if 224 <= u && u <= 228 {
        Some(seq!['a'])
    } else if u == 231 {
        Some(seq!['c'])
    } else if u == 232 || u == 234 || u == 235 || u == 7497 {
        Some(seq!['e'])
    } else if u == 238 || u == 239 {
        Some(seq!['i'])
    } else if u == 241 {
        Some(seq!['n'])
    } else if u == 243 || u == 244 || u == 246 {
        Some(seq!['o'])
    } else if u == 249 || u == 251 || u == 252 {
        Some(seq!['u'])
    } else if u == 7511 {
        Some(seq!['t'])
    } else if u == 8217 {
        Some(seq!['\''])
    } else if u == 338 {
        Some(seq!['O', 'E'])
    } else if u == 339 {
        Some(seq!['o', 'e'])
    } else {
        None
    }
}

/// The ASCII form of `c`: its table entry, or `c` itself where it has none.
pub open spec fn ascii_of(c: char) -> Seq<char> {
    match table_entry(c) {
        Some(r) => r,
        None => seq![c],
    }
}

/// Every character replaced by its ASCII form.
pub open spec fn transliterate(w: Seq<char>) -> Seq<char> {
    join(w, |c: char| ascii_of(c))
}

/// `w` in ASCII: stress marks stripped, then every character replaced by its
/// ASCII form.
pub open spec fn word_to_ascii_spec(w: Seq<char>) -> Seq<char> {
    transliterate(strip_stress_spec(w))
}

/// `c` is a stress mark, an ASCII character, or in the table.
pub open spec fn has_ascii_form(c: char) -> bool {
    is_stress_mark(c) || c <= '\u{7f}' || table_entry(c) is Some
}

/// Every character of `w` has an ASCII form: `w` can be a headword.
pub open spec fn ascii_representable(w: Seq<char>) -> bool {
    forall|i: int| 0 <= i < w.len() ==> has_ascii_form(#[trigger] w[i])
}

/// What an ASCII character becomes in an identifier: an apostrophe nothing, a
/// space an underscore, a capital its small letter, anything else itself.
pub open spec fn id_of(c: char) -> Seq<char> {
    if c == '\'' {
        Seq::empty()
    } else if c == ' ' {
        seq!['_']
    } else if 'A' <= c && c <= 'Z' {
        seq![((c as u32) + 32) as char]
    } else {
        seq![c]
    }
}

/// The identifier of a headword: its ASCII form in lower case, with
/// underscores for spaces and without apostrophes.
pub open spec fn to_id_spec(w: Seq<char>) -> Seq<char> {
    join(word_to_ascii_spec(w), |c: char| id_of(c))
}

/// Tells whether `c` is a stress mark.
pub fn stress_mark(c: char) -> (b: bool)
    ensures
        b == is_stress_mark(c),
{
    c == '\u{b4}' || c == '\u{2022}'
}

/// Removes the stress marks from `word`.
pub fn strip_stress(word: &str) -> (r: String)
    ensures
        r@ == strip_stress_spec(word@),
{
    let ghost keep = |c: char| !is_stress_mark(c);
    let mut out = String::new();
    proof {
        reveal(Seq::filter);
        assert(word@.take(0) =~= Seq::<char>::empty());
    }
    for c in it: word.chars()
        invariant
            it.seq() == word@,
            keep == |c: char| !is_stress_mark(c),
            out@ == word@.take(it.index()).filter(keep),
    {
        proof {
            word@.take(it.index()).lemma_filter_push(c, keep);
            assert(word@.take(it.index() + 1) =~= word@.take(it.index()).push(c));
        }
        if !stress_mark(c) {
            out.push(c);
        }
    }
    assert(word@.take(word@.len() as int) =~= word@);
    out
}

/// Appends the ASCII form of `c` to `out`.
fn push_ascii_of(out: &mut String, c: char)
    ensures
        final(out)@ == old(out)@ + ascii_of(c),
{
    let u = c as u32;
    if u == 199 {
        out.push('C');
    } else if 224 <= u && u <= 228 {
        out.push('a');
    } else if u == 231 {
        out.push('c');
    } else if u == 232 || u == 234 || u == 235 || u == 7497 {
        out.push('e');
    } else if u == 238 || u == 239 {
        out.push('i');
    } else if u == 241 {
        out.push('n');
    } else if u == 243 || u == 244 || u == 246 {
        out.push('o');
    } else if u == 249 || u == 251 || u == 252 {
        out.push('u');
    } else if u == 7511 {
        out.push('t');
    } else if u == 8217 {
        out.push('\'');
    } else if u == 338 {
        out.push('O');
        out.push('E');
    } else if u == 339 {
        out.push('o');
        out.push('e');
    } else {
        out.push(c);
    }
    assert(out@ =~= old(out)@ + ascii_of(c));
}

/// Tells whether `c` is a stress mark, an ASCII character, or in the table.
pub fn char_has_ascii_form(c: char) -> (b: bool)
    ensures
        b == has_ascii_form(c),
{
    let u = c as u32;
    stress_mark(c) || u < 128 || u == 199 || (224 <= u && u <= 228) || (231 <= u && u <= 232) || u
        == 234 || u == 235 || u == 238 || u == 239 || u == 241 || u == 243 || u == 244 || u == 246
        || u == 249 || u == 251 || u == 252 || u == 338 || u == 339 || u == 7497 || u == 7511 || u
        == 8217
}

/// Tells whether every character of `word` has an ASCII form.
pub fn is_ascii_representable(word: &str) -> (b: bool)
    ensures
        b == ascii_representable(word@),
{
    for c in it: word.chars()
        invariant
            it.seq() == word@,
            forall|i: int| 0 <= i < it.index() ==> has_ascii_form(#[trigger] word@[i]),
    {
        if !char_has_ascii_form(c) {
            assert(!has_ascii_form(word@[it.index()]));
            return false;
        }
    }
    true
}

/// A character is no less than the null character.
proof fn lemma_char_least(c: char)
    ensures
        '\0' <= c,
{
}

/// The ASCII forms of characters that have one are ASCII.
pub proof fn lemma_transliterate_ascii(w: Seq<char>)
    requires
        forall|i: int| 0 <= i < w.len() ==> w[i] <= '\u{7f}' || table_entry(#[trigger] w[i]) is Some,
    ensures
        is_ascii_chars(transliterate(w)),
    decreases w.len(),
{
    if w.len() > 0 {
        let rest = w.drop_first();
        assert forall|i: int| 0 <= i < rest.len() implies rest[i] <= '\u{7f}' || table_entry(
            #[trigger] rest[i],
        ) is Some by {
            assert(rest[i] == w[i + 1]);
        }
        lemma_transliterate_ascii(rest);
        let head = ascii_of(w[0]);
        let tail = transliterate(rest);
        assert(w[0] <= '\u{7f}' || table_entry(w[0]) is Some);
        assert forall|i: int| 0 <= i < head.len() implies #[trigger] head[i] <= '\u{7f}' by {
            if table_entry(w[0]) is None {
                assert(head[i] == w[0]);
            }
        }
        let all = head + tail;
        assert forall|i: int| 0 <= i < all.len() implies '\0' <= #[trigger] all[i] <= '\u{7f}' by {
            if i < head.len() {
                assert(all[i] == head[i]);
                assert(head[i] <= '\u{7f}');
            } else {
                assert(all[i] == tail[i - head.len()]);
                assert(tail[i - head.len()] <= '\u{7f}');
            }
            lemma_char_least(all[i]);
        }
    }
}

/// What is left after stripping holds no stress mark, and nothing that `w`
/// did not hold.
pub proof fn lemma_stripped(w: Seq<char>)
    ensures
        forall|i: int|
            0 <= i < strip_stress_spec(w).len() ==> !is_stress_mark(#[trigger] strip_stress_spec(w)[i])
                && w.contains(strip_stress_spec(w)[i]),
{
    let keep = |c: char| !is_stress_mark(c);
    assert forall|i: int| 0 <= i < w.filter(keep).len() implies !is_stress_mark(
        #[trigger] w.filter(keep)[i],
    ) && w.contains(w.filter(keep)[i]) by {
        w.lemma_filter_pred(keep, i);
        assert(w.filter(keep).contains(w.filter(keep)[i]));
        w.lemma_filter_contains_rev(keep, w.filter(keep)[i]);
    }
}

/// The ASCII form of a word that can be a headword is ASCII.
pub proof fn lemma_word_to_ascii_is_ascii(w: Seq<char>)
    requires
        ascii_representable(w),
    ensures
        is_ascii_chars(word_to_ascii_spec(w)),
{
    lemma_stripped(w);
    let s = strip_stress_spec(w);
    assert forall|i: int| 0 <= i < s.len() implies s[i] <= '\u{7f}' || table_entry(
        #[trigger] s[i],
    ) is Some by {
        let j = choose|j: int| 0 <= j < w.len() && w[j] == s[i];
        assert(has_ascii_form(w[j]));
    }
    lemma_transliterate_ascii(s);
}

/// Turns `word` into ASCII: strips the stress marks and replaces accented
/// letters, ligatures and the curly apostrophe by their ASCII forms.
pub fn word_to_ascii(word: &str) -> (r: String)
    requires
        ascii_representable(word@),
    ensures
        r@ == word_to_ascii_spec(word@),
        is_ascii_chars(r@),
{
    let stripped = strip_stress(word);
    let mut out = String::new();
    let ghost form = |c: char| ascii_of(c);
    proof {
        assert(stripped@.take(0) =~= Seq::<char>::empty());
    }
    for c in it: stripped.as_str().chars()
        invariant
            it.seq() == stripped@,
            form == |c: char| ascii_of(c),
            out@ == join(stripped@.take(it.index()), form),
    {
        proof {
            lemma_join_push(stripped@.take(it.index()), c, form);
            assert(stripped@.take(it.index() + 1) =~= stripped@.take(it.index()).push(c));
        }
        push_ascii_of(&mut out, c);
    }
    proof {
        assert(stripped@.take(stripped@.len() as int) =~= stripped@);
        lemma_word_to_ascii_is_ascii(word@);
    }
    out
}

/// Appends to `out` what `c` becomes in an identifier.
fn push_id_of(out: &mut String, c: char)
    requires
        c <= '\u{7f}',
    ensures
        final(out)@ == old(out)@ + id_of(c),
{
    if c == '\'' {
    } else if c == ' ' {
        out.push('_');
    } else if 'A' <= c && c <= 'Z' {
        out.push(((c as u8) + 32) as char);
    } else {
        out.push(c);
    }
    assert(out@ =~= old(out)@ + id_of(c));
}

/// Makes the identifier of a headword: its ASCII form in lower case, spaces
/// turned into underscores, apostrophes dropped.
pub fn to_id(word: &str) -> (r: String)
    requires
        ascii_representable(word@),
    ensures
        r@ == to_id_spec(word@),
{
    let ascii = word_to_ascii(word);
    let mut out = String::new();
    let ghost form = |c: char| id_of(c);
    proof {
        assert(ascii@.take(0) =~= Seq::<char>::empty());
    }
    for c in it: ascii.as_str().chars()
        invariant
            it.seq() == ascii@,
            is_ascii_chars(ascii@),
            form == |c: char| id_of(c),
            out@ == join(ascii@.take(it.index()), form),
    {
        proof {
            lemma_join_push(ascii@.take(it.index()), c, form);
            assert(ascii@.take(it.index() + 1) =~= ascii@.take(it.index()).push(c));
            assert(c == ascii@[it.index()]);
        }
        push_id_of(&mut out, c);
    }
    assert(ascii@.take(ascii@.len() as int) =~= ascii@);
    out
}

/// Stripping changes nothing where there is no stress mark.
pub proof fn lemma_strip_clean(s: Seq<char>)
    requires
        forall|i: int| 0 <= i < s.len() ==> !is_stress_mark(#[trigger] s[i]),
    ensures
        strip_stress_spec(s) == s,
    decreases s.len(),
{
    let keep = |c: char| !is_stress_mark(c);
    if s.len() == 0 {
        reveal(Seq::filter);
    } else {
        let init = s.drop_last();
        assert forall|i: int| 0 <= i < init.len() implies !is_stress_mark(#[trigger] init[i]) by {
            assert(init[i] == s[i]);
        }
        lemma_strip_clean(init);
        init.lemma_filter_push(s.last(), keep);
        assert(init.push(s.last()) =~= s);
    }
}

/// ASCII text is its own ASCII form.
pub proof fn lemma_ascii_unchanged(s: Seq<char>)
    requires
        is_ascii_chars(s),
    ensures
        ascii_representable(s),
        word_to_ascii_spec(s) == s,
{
    assert forall|i: int| 0 <= i < s.len() implies !is_stress_mark(#[trigger] s[i]) by {}
    lemma_strip_clean(s);
    assert forall|i: int| 0 <= i < s.len() implies #[trigger] ascii_of(s[i]) == seq![s[i]] by {}
    lemma_join_same(s, |c: char| ascii_of(c));
}

/// Stripping stress marks twice gives what stripping once gives.
pub proof fn law_strip_stress_idempotent(w: Seq<char>)
    ensures
        strip_stress_spec(strip_stress_spec(w)) == strip_stress_spec(w),
{
    lemma_stripped(w);
    lemma_strip_clean(strip_stress_spec(w));
}

/// The ASCII form of a headword can be a headword, and is its own ASCII form.
pub proof fn law_word_to_ascii_idempotent(w: Seq<char>)
    requires
        ascii_representable(w),
    ensures
        ascii_representable(word_to_ascii_spec(w)),
        word_to_ascii_spec(word_to_ascii_spec(w)) == word_to_ascii_spec(w),
{
    lemma_word_to_ascii_is_ascii(w);
    lemma_ascii_unchanged(word_to_ascii_spec(w));
}

/// A small letter, a digit, an underscore or a hyphen.
pub open spec fn is_id_char(c: char) -> bool {
    ('a' <= c && c <= 'z') || ('0' <= c && c <= '9') || c == '_' || c == '-'
}

/// A character that an identifier can be made of: a letter, a digit, an
/// underscore, a hyphen, a space or an apostrophe.
pub open spec fn is_name_char(c: char) -> bool {
    ('a' <= c && c <= 'z') || ('A' <= c && c <= 'Z') || ('0' <= c && c <= '9') || c == '_' || c == '-'
        || c == ' ' || c == '\''
}

/// An identifier is ASCII and holds no capital, space or apostrophe.
pub proof fn lemma_id_plain(w: Seq<char>)
    requires
        ascii_representable(w),
    ensures
        forall|k: int|
            0 <= k < to_id_spec(w).len() ==> {
                let c = #[trigger] to_id_spec(w)[k];
                '\0' <= c <= '\u{7f}' && id_of(c) == seq![c]
            },
{
    lemma_word_to_ascii_is_ascii(w);
    let a = word_to_ascii_spec(w);
    let form = |c: char| id_of(c);
    let ok = |c: char| '\0' <= c <= '\u{7f}' && id_of(c) == seq![c];
    assert forall|i: int, j: int| 0 <= i < a.len() && 0 <= j < form(a[i]).len() implies ok(
        #[trigger] form(a[i])[j],
    ) by {
        let c = a[i];
        assert('\0' <= c <= '\u{7f}');
        lemma_small_letter(c);
    }
    lemma_join_all(a, form, ok);
    assert forall|k: int| 0 <= k < to_id_spec(w).len() implies {
        let c = #[trigger] to_id_spec(w)[k];
        '\0' <= c <= '\u{7f}' && id_of(c) == seq![c]
    } by {
        assert(ok(join(a, form)[k]));
    }
}

/// The small letter of a capital is a small letter.
proof fn lemma_small_letter(c: char)
    ensures
        'A' <= c && c <= 'Z' ==> {
            let l = ((c as u32) + 32) as char;
            'a' <= l && l <= 'z'
        },
{
}

/// The identifier of a headword can be a headword, and is its own identifier.
pub proof fn law_to_id_idempotent(w: Seq<char>)
    requires
        ascii_representable(w),
    ensures
        ascii_representable(to_id_spec(w)),
        to_id_spec(to_id_spec(w)) == to_id_spec(w),
{
    lemma_id_plain(w);
    let r = to_id_spec(w);
    assert(is_ascii_chars(r));
    lemma_ascii_unchanged(r);
    assert forall|i: int| 0 <= i < r.len() implies #[trigger] id_of(r[i]) == seq![r[i]] by {}
    lemma_join_same(r, |c: char| id_of(c));
}

/// Where the ASCII form of a headword holds only letters, digits,
/// underscores, hyphens, spaces and apostrophes, its identifier holds only
/// small letters, digits, underscores and hyphens.
pub proof fn law_to_id_alphabet(w: Seq<char>)
    requires
        ascii_representable(w),
        forall|i: int| 0 <= i < word_to_ascii_spec(w).len() ==> is_name_char(#[trigger] word_to_ascii_spec(w)[i]),
    ensures
        forall|k: int| 0 <= k < to_id_spec(w).len() ==> is_id_char(#[trigger] to_id_spec(w)[k]),
{
    let a = word_to_ascii_spec(w);
    let form = |c: char| id_of(c);
    let ok = |c: char| is_id_char(c);
    assert forall|i: int, j: int| 0 <= i < a.len() && 0 <= j < form(a[i]).len() implies ok(
        #[trigger] form(a[i])[j],
    ) by {
        assert(is_name_char(a[i]));
        lemma_small_letter(a[i]);
    }
    lemma_join_all(a, form, ok);
    assert forall|k: int| 0 <= k < to_id_spec(w).len() implies is_id_char(#[trigger] to_id_spec(w)[k]) by {
        assert(ok(join(a, form)[k]));
    }
}

} // verus!
