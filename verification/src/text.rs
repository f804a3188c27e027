//! Character sequences: conversion from and to strings, literal matching,
//! substring search and runs of ordinary text.

use vstd::prelude::*;
use vstd::slice::slice_subrange;
use vstd::string::StringExecFns;

verus! {

broadcast use vstd::string::group_string_axioms;

/// `String::push` of the standard library: the character is appended, and
/// everything before it stays as it was.
pub assume_specification[ String::push ](s: &mut String, c: char)
    ensures
        final(s)@ == old(s)@.push(c),
;

/// The characters of `s`, in order.
pub fn chars_of(s: &str) -> (v: Vec<char>)
    ensures
        v@ == s@,
{
    let mut v: Vec<char> = Vec::new();
    for c in it: s.chars()
        invariant
            it.seq() == s@,
            v@ == s@.take(it.index()),
    {
        v.push(c);
    }
    v
}

/// Appends `buf[from..to]` to `out`.
pub fn push_range(out: &mut String, buf: &[char], from: usize, to: usize)
    requires
        from <= to <= buf.len(),
    ensures
        final(out)@ == old(out)@ + buf@.subrange(from as int, to as int),
{
    let mut i: usize = from;
    while i < to
        invariant
            from <= i <= to <= buf.len(),
            out@ == old(out)@ + buf@.subrange(from as int, i as int),
        decreases to - i,
    {
        out.push(buf[i]);
        i = i + 1;
    }
}

/// A string holding `buf[from..to]`.
pub fn string_of(buf: &[char], from: usize, to: usize) -> (s: String)
    requires
        from <= to <= buf.len(),
    ensures
        s@ == buf@.subrange(from as int, to as int),
{
    let mut s = String::new();
    push_range(&mut s, buf, from, to);
    s
}

/// `pat` stands in `s` at index `i`.
pub open spec fn has_at(s: Seq<char>, i: int, pat: Seq<char>) -> bool {
    0 <= i && i + pat.len() <= s.len() && s.subrange(i, i + pat.len()) == pat
}

/// The literal `pat` at `pos`: the index right after it.
pub open spec fn lit(s: Seq<char>, pos: int, pat: Seq<char>) -> Option<int> {
    if has_at(s, pos, pat) {
        Some(pos + pat.len())
    } else {
        None
    }
}

/// Matches the literal `pat` at `pos` and returns the index after it.
pub fn eat(buf: &[char], pos: usize, pat: &str) -> (r: Option<usize>)
    ensures
        match r {
            Some(e) => lit(buf@, pos as int, pat@) == Some(e as int),
            None => lit(buf@, pos as int, pat@) is None,
        },
{
    if pos > buf.len() {
        return None;
    }
    let mut k: usize = 0;
    for c in it: pat.chars()
        invariant
            it.seq() == pat@,
            k == it.index(),
            pos + k <= buf.len(),
            buf@.subrange(pos as int, pos + k) == pat@.take(k as int),
    {
        if pos >= buf.len() - k || buf[pos + k] != c {
            assert(!has_at(buf@, pos as int, pat@)) by {
                if has_at(buf@, pos as int, pat@) {
                    assert(buf@.subrange(pos as int, pos + pat@.len())[k as int] == pat@[k as int]);
                }
            }
            return None;
        }
        assert(buf@.subrange(pos as int, pos + k + 1) =~= pat@.take(k as int + 1));
        k = k + 1;
    }
    assert(pat@.take(k as int) =~= pat@);
    Some(pos + k)
}

/// The text ends at or after `pos` before `pat` does: what is left from `pos`
/// on is a beginning of `pat`, and not the whole of it.
pub open spec fn cut_short(s: Seq<char>, pos: int, pat: Seq<char>) -> bool {
    0 <= pos <= s.len() && s.len() - pos < pat.len() && s.subrange(pos, s.len() as int)
        == pat.subrange(0, s.len() - pos)
}

/// What matching a literal against a text that may end early comes to.
#[derive(Clone, Copy, Debug, PartialEq, Eq)]
pub enum Bite {
    /// The literal stands there; the index after it.
    Whole(usize),
    /// The text ends within the literal.
    Short,
    /// Something else stands there.
    Other,
}

/// Matches the literal `pat` at `pos`, and tells a text that ends within the
/// literal from one that holds something else.
pub fn bite(buf: &[char], pos: usize, pat: &str) -> (r: Bite)
    ensures
        match r {
            Bite::Whole(e) => lit(buf@, pos as int, pat@) == Some(e as int),
            Bite::Short => lit(buf@, pos as int, pat@) is None && cut_short(buf@, pos as int, pat@),
            Bite::Other => lit(buf@, pos as int, pat@) is None && !cut_short(buf@, pos as int, pat@),
        },
{
    if pos > buf.len() {
        return Bite::Other;
    }
    let mut k: usize = 0;
    for c in it: pat.chars()
        invariant
            it.seq() == pat@,
            k == it.index(),
            pos + k <= buf.len(),
            buf@.subrange(pos as int, pos + k) == pat@.take(k as int),
    {
        if pos >= buf.len() - k {
            assert(!has_at(buf@, pos as int, pat@));
            assert(pat@.subrange(0, k as int) =~= pat@.take(k as int));
            return Bite::Short;
        }
        if buf[pos + k] != c {
            assert(!has_at(buf@, pos as int, pat@)) by {
                if has_at(buf@, pos as int, pat@) {
                    assert(buf@.subrange(pos as int, pos + pat@.len())[k as int] == pat@[k as int]);
                }
            }
            assert(!cut_short(buf@, pos as int, pat@)) by {
                if cut_short(buf@, pos as int, pat@) {
                    assert(buf@.subrange(pos as int, buf@.len() as int)[k as int] == pat@.subrange(
                        0,
                        buf@.len() - pos,
                    )[k as int]);
                }
            }
            return Bite::Other;
        }
        assert(buf@.subrange(pos as int, pos + k + 1) =~= pat@.take(k as int + 1));
        k = k + 1;
    }
    assert(pat@.take(k as int) =~= pat@);
    Bite::Whole(pos + k)
}

/// The first index at or after `from` where `pat` stands in `s`.
pub open spec fn first_at(s: Seq<char>, from: int, pat: Seq<char>) -> Option<int>
    decreases s.len() - from,
{
    if from < 0 || from + pat.len() > s.len() {
        None
    } else if has_at(s, from, pat) {
        Some(from)
    } else if from >= s.len() {
        None
    } else {
        first_at(s, from + 1, pat)
    }
}

/// `first_at` gives an occurrence, and no occurrence starts between `from`
/// and it; where it gives none, there is none at or after `from`.
pub proof fn lemma_first_at(s: Seq<char>, from: int, pat: Seq<char>)
    requires
        0 <= from,
    ensures
        match first_at(s, from, pat) {
            Some(i) => from <= i && has_at(s, i, pat) && forall|j: int|
                from <= j < i ==> !has_at(s, j, pat),
            None => forall|j: int| from <= j ==> !has_at(s, j, pat),
        },
    decreases s.len() - from,
{
    if from + pat.len() > s.len() {
    } else if has_at(s, from, pat) {
    } else if from >= s.len() {
    } else {
        lemma_first_at(s, from + 1, pat);
    }
}

/// Searches `buf` from `from` on for the first occurrence of `pat`: where it
/// starts, and the index after it.
pub fn find_at(buf: &[char], from: usize, pat: &str) -> (r: Option<(usize, usize)>)
    ensures
        match r {
            Some((i, e)) => first_at(buf@, from as int, pat@) == Some(i as int) && e == i
                + pat@.len() && e <= buf.len(),
            None => first_at(buf@, from as int, pat@) is None,
        },
{
    let mut i: usize = from;
    loop
        invariant
            from <= i,
            first_at(buf@, from as int, pat@) == first_at(buf@, i as int, pat@),
        decreases buf.len() - i,
    {
        match eat(buf, i, pat) {
            Some(e) => {
                return Some((i, e));
            },
            None => {},
        }
        if i >= buf.len() {
            return None;
        }
        i = i + 1;
    }
}

/// `s` with every occurrence of `pat` replaced by `rep`: the occurrences are
/// taken from left to right and do not overlap. An empty pattern occurs
/// nowhere.
pub open spec fn replaced(s: Seq<char>, pat: Seq<char>, rep: Seq<char>) -> Seq<char>
    decreases s.len(),
{
    match first_at(s, 0, pat) {
        Some(i) => if pat.len() > 0 && 0 <= i && i + pat.len() <= s.len() {
            s.subrange(0, i) + rep + replaced(s.subrange(i + pat.len(), s.len() as int), pat, rep)
        } else {
            s
        },
        None => s,
    }
}

/// Replaces every occurrence of `pat` in `text` by `rep`.
pub fn replace_all(text: &str, pat: &str, rep: &str) -> (r: String)
    ensures
        r@ == replaced(text@, pat@, rep@),
{
    if pat.is_empty() {
        return text.to_owned();
    }
    let buf = chars_of(text);
    let mut out = String::new();
    let mut cur: usize = 0;
    proof {
        assert(buf@.subrange(0, buf@.len() as int) =~= buf@);
        assert(out@ + replaced(buf@, pat@, rep@) =~= replaced(text@, pat@, rep@));
    }
    loop
        invariant
            cur <= buf.len(),
            buf@ == text@,
            pat@.len() > 0,
            out@ + replaced(buf@.subrange(cur as int, buf@.len() as int), pat@, rep@) == replaced(
                text@,
                pat@,
                rep@,
            ),
        decreases buf.len() - cur,
    {
        let rest = slice_subrange(buf.as_slice(), cur, buf.len());
        let ghost sofar = out@;
        proof {
            lemma_first_at(rest@, 0, pat@);
        }
        match find_at(rest, 0, pat) {
            Some((i, e)) => {
                push_range(&mut out, rest, 0, i);
                out.append(rep);
                proof {
                    assert(rest@.subrange(e as int, rest@.len() as int) =~= buf@.subrange(
                        cur + e,
                        buf@.len() as int,
                    ));
                    assert(out@ + replaced(rest@.subrange(e as int, rest@.len() as int), pat@, rep@)
                        =~= sofar + replaced(rest@, pat@, rep@));
                }
                cur = cur + e;
            },
            None => {
                push_range(&mut out, rest, 0, rest.len());
                assert(rest@.subrange(0, rest@.len() as int) =~= rest@);
                return out;
            },
        }
    }
}

/// Characters that end a run of ordinary text: the angle brackets, and the
/// square brackets too where `square` is set.
pub open spec fn is_stop(c: char, square: bool) -> bool {
    c == '<' || c == '>' || (square && (c == '[' || c == ']'))
}

/// The first index at or after `from` that holds a stop character, or the
/// length of `s` where there is none.
pub open spec fn run_end(s: Seq<char>, from: int, square: bool) -> int
    decreases s.len() - from,
{
    if from < 0 || from >= s.len() || is_stop(s[from], square) {
        from
    } else {
        run_end(s, from + 1, square)
    }
}

/// A run of ordinary text at `pos`: at least one character, none of them a
/// stop character, and a stop character right after the run.
pub open spec fn text_run(s: Seq<char>, pos: int, square: bool) -> Option<int> {
    let e = run_end(s, pos, square);
    if 0 <= pos < e < s.len() {
        Some(e)
    } else {
        None
    }
}

/// Tells whether `c` ends a run of ordinary text.
pub fn stops(c: char, square: bool) -> (b: bool)
    ensures
        b == is_stop(c, square),
{
    c == '<' || c == '>' || (square && (c == '[' || c == ']'))
}

/// Scans a run of ordinary text at `pos`.
pub fn scan_run(buf: &[char], pos: usize, square: bool) -> (r: Option<usize>)
    ensures
        match r {
            Some(e) => text_run(buf@, pos as int, square) == Some(e as int),
            None => text_run(buf@, pos as int, square) is None,
        },
{
    if pos >= buf.len() {
        return None;
    }
    let mut i: usize = pos;
    while i < buf.len() && !stops(buf[i], square)
        invariant
            pos <= i <= buf.len(),
            run_end(buf@, pos as int, square) == run_end(buf@, i as int, square),
        decreases buf.len() - i,
    {
        i = i + 1;
    }
    if pos < i && i < buf.len() {
        Some(i)
    } else {
        None
    }
}

/// Two adjoining pieces of a sequence make one piece.
pub proof fn lemma_pieces(s: Seq<char>, a: int, b: int, c: int)
    requires
        0 <= a <= b <= c <= s.len(),
    ensures
        s.subrange(a, b) + s.subrange(b, c) == s.subrange(a, c),
{
    assert(s.subrange(a, b) + s.subrange(b, c) =~= s.subrange(a, c));
}

/// The texts that `f` gives for the items, one after the other.
pub open spec fn join<T>(items: Seq<T>, f: spec_fn(T) -> Seq<char>) -> Seq<char>
    decreases items.len(),
{
    if items.len() == 0 {
        Seq::empty()
    } else {
        f(items[0]) + join(items.drop_first(), f)
    }
}

/// Joining two sequences of items joins their texts.
pub proof fn lemma_join_concat<T>(a: Seq<T>, b: Seq<T>, f: spec_fn(T) -> Seq<char>)
    ensures
        join(a + b, f) == join(a, f) + join(b, f),
    decreases a.len(),
{
    if a.len() == 0 {
        assert(a + b =~= b);
        assert(join(a, f) + join(b, f) =~= join(b, f));
    } else {
        lemma_join_concat(a.drop_first(), b, f);
        assert((a + b).drop_first() =~= a.drop_first() + b);
        assert(join(a + b, f) =~= join(a, f) + join(b, f));
    }
}

/// One more item adds its text at the end.
pub proof fn lemma_join_push<T>(a: Seq<T>, x: T, f: spec_fn(T) -> Seq<char>)
    ensures
        join(a.push(x), f) == join(a, f) + f(x),
{
    lemma_join_concat(a, seq![x], f);
    assert(a.push(x) =~= a + seq![x]);
    let one = seq![x];
    assert(one.len() == 1 && one[0] == x);
    assert(one.drop_first() =~= Seq::<T>::empty());
    assert(join(one.drop_first(), f) =~= Seq::<char>::empty());
    assert(join(one, f) =~= f(x));
}

/// What holds of every character of every item's text holds of every
/// character of the joined text.
pub proof fn lemma_join_all<T>(items: Seq<T>, f: spec_fn(T) -> Seq<char>, ok: spec_fn(char) -> bool)
    requires
        forall|i: int, j: int| 0 <= i < items.len() && 0 <= j < f(items[i]).len() ==> ok(#[trigger] f(items[i])[j]),
    ensures
        forall|k: int| 0 <= k < join(items, f).len() ==> ok(#[trigger] join(items, f)[k]),
    decreases items.len(),
{
    if items.len() > 0 {
        let rest = items.drop_first();
        assert forall|i: int, j: int| 0 <= i < rest.len() && 0 <= j < f(rest[i]).len() implies ok(
            #[trigger] f(rest[i])[j],
        ) by {
            assert(rest[i] == items[i + 1]);
        }
        lemma_join_all(rest, f, ok);
        let head = f(items[0]);
        let tail = join(rest, f);
        assert forall|k: int| 0 <= k < (head + tail).len() implies ok(#[trigger] (head + tail)[k]) by {
            if k < head.len() {
                assert((head + tail)[k] == f(items[0])[k]);
            } else {
                assert((head + tail)[k] == tail[k - head.len()]);
            }
        }
    }
}

/// Where `f` gives every character back as it is, joining changes nothing.
pub proof fn lemma_join_same(s: Seq<char>, f: spec_fn(char) -> Seq<char>)
    requires
        forall|i: int| 0 <= i < s.len() ==> #[trigger] f(s[i]) == seq![s[i]],
    ensures
        join(s, f) == s,
    decreases s.len(),
{
    if s.len() > 0 {
        let rest = s.drop_first();
        assert forall|i: int| 0 <= i < rest.len() implies #[trigger] f(rest[i]) == seq![rest[i]] by {
            assert(rest[i] == s[i + 1]);
        }
        lemma_join_same(rest, f);
        assert(seq![s[0]] + rest =~= s);
    } else {
        assert(join(s, f) =~= s);
    }
}

} // verus!
