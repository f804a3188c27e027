//! Headwords of the plain-text edition: the words that stand between `<hw>`
//! and `</hw>`, line by line.

use vstd::prelude::*;
use vstd::slice::slice_subrange;
use vstd::string::StringExecFns;
use crate::grammar::enclosed_until;
use crate::parser::read_enclosed_until;
use crate::roundtrip::lemma_enclosed_until;
use crate::text::{chars_of, find_at, first_at, lemma_first_at};

verus! {

/// The headwords of a line that starts with one, with a bar after each that
/// another `<hw>` follows. It ends at the first `<hw>` that does not open a
/// whole headword.
pub open spec fn line_words(line: Seq<char>) -> Seq<char>
    decreases line.len(),
{
    match enclosed_until(line, 0, "<hw>"@, "</hw>"@) {
        Some((word, e)) => match first_at(line, e, "<hw>"@) {
            Some(j) => if 0 < j <= line.len() {
                word + "|"@ + line_words(line.subrange(j, line.len() as int))
            } else {
                word
            },
            None => word,
        },
        None => Seq::empty(),
    }
}

/// The list of the headwords of `s`: for every line that holds a `<hw>`, the
/// headwords from there on and a newline. `None` where the last such line
/// has no newline at its end.
pub open spec fn listed(s: Seq<char>) -> Option<Seq<char>>
    decreases s.len(),
{
    match first_at(s, 0, "<hw>"@) {
        Some(i) => match first_at(s, i, "\n"@) {
            Some(n) => if 0 <= i <= n && 0 < n <= s.len() {
                match listed(s.subrange(n, s.len() as int)) {
                    Some(rest) => Some(line_words(s.subrange(i, n)) + "\n"@ + rest),
                    None => None,
                }
            } else {
                None
            },
            None => None,
        },
        None => Some(Seq::empty()),
    }
}

/// A newline does not stand where `<hw>` stands.
proof fn lemma_line_after_hw(s: Seq<char>, i: int)
    requires
        first_at(s, 0, "<hw>"@) == Some(i),
    ensures
        first_at(s, i, "\n"@) matches Some(n) ==> i < n <= s.len(),
{
    reveal_strlit("<hw>");
    reveal_strlit("\n");
    lemma_first_at(s, 0, "<hw>"@);
    lemma_first_at(s, i, "\n"@);
    if let Some(n) = first_at(s, i, "\n"@) {
        if n == i {
            assert(s.subrange(i, i + 4)[0] == '<');
            assert(s.subrange(i, i + 1)[0] == '\n');
        }
    }
}

/// Appends the headwords of `line` to `out`.
pub fn push_line_words(out: &mut String, line: &[char])
    ensures
        final(out)@ == old(out)@ + line_words(line@),
{
    let mut cur: usize = 0;
    proof {
        assert(line@.subrange(0, line@.len() as int) =~= line@);
    }
    loop
        invariant
            cur <= line.len(),
            out@ + line_words(line@.subrange(cur as int, line@.len() as int)) == old(out)@ + line_words(
                line@,
            ),
        decreases line.len() - cur,
    {
        let rest = slice_subrange(line, cur, line.len());
        let ghost sofar = out@;
        let (word, e) = match read_enclosed_until(rest, 0, "<hw>", "</hw>") {
            Some(r) => r,
            None => {
                assert(out@ + Seq::<char>::empty() =~= out@);
                return ;
            },
        };
        out.append(word.as_str());
        proof {
            reveal_strlit("<hw>");
            lemma_enclosed_until(rest@, 0, "<hw>"@, "</hw>"@);
            assert(("<hw>"@ + word@ + "</hw>"@).len() == rest@.subrange(0, e as int).len());
            assert(e >= 4);
            lemma_first_at(rest@, e as int, "<hw>"@);
        }
        let j = match find_at(rest, e, "<hw>") {
            Some((j, _)) => j,
            None => {
                return ;
            },
        };
        out.append("|");
        proof {
            assert(rest@.subrange(j as int, rest@.len() as int) =~= line@.subrange(
                cur + j,
                line@.len() as int,
            ));
            assert(out@ + line_words(rest@.subrange(j as int, rest@.len() as int)) =~= sofar + (word@
                + "|"@ + line_words(rest@.subrange(j as int, rest@.len() as int))));
        }
        cur = cur + j;
    }
}

/// Lists the headwords of `contents`: one line for every line of `contents`
/// that holds a `<hw>`, with the headwords from there on and bars between
/// them. `None` where the last such line has no newline at its end.
pub fn list_hws(contents: &str) -> (r: Option<String>)
    ensures
        match r {
            Some(out) => listed(contents@) == Some(out@),
            None => listed(contents@) is None,
        },
{
    let buf = chars_of(contents);
    let mut out = String::new();
    let mut cur: usize = 0;
    proof {
        assert(buf@.subrange(0, buf@.len() as int) =~= buf@);
        if let Some(t) = listed(buf@) {
            assert(out@ + t =~= t);
        }
    }
    loop
        invariant
            cur <= buf.len(),
            buf@ == contents@,
            listed(contents@) == match listed(buf@.subrange(cur as int, buf@.len() as int)) {
                Some(t) => Some(out@ + t),
                None => None,
            },
        decreases buf.len() - cur,
    {
        let rest = slice_subrange(buf.as_slice(), cur, buf.len());
        let ghost sofar = out@;
        let i = match find_at(rest, 0, "<hw>") {
            Some((i, _)) => i,
            None => {
                assert(out@ + Seq::<char>::empty() =~= out@);
                return Some(out);
            },
        };
        proof {
            lemma_line_after_hw(rest@, i as int);
        }
        let n = match find_at(rest, i, "\n") {
            Some((n, _)) => n,
            None => {
                return None;
            },
        };
        push_line_words(&mut out, slice_subrange(rest, i, n));
        out.append("\n");
        proof {
            assert(rest@.subrange(n as int, rest@.len() as int) =~= buf@.subrange(
                cur + n,
                buf@.len() as int,
            ));
            if let Some(t) = listed(rest@.subrange(n as int, rest@.len() as int)) {
                assert(out@ + t =~= sofar + (line_words(rest@.subrange(i as int, n as int)) + "\n"@
                    + t));
            }
        }
        cur = cur + n;
    }
}

} // verus!
