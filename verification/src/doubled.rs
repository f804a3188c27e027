//! Lines of the plain-text edition in which a list of headwords starts with
//! `<hw>` twice and ends in a closing brace: the first `<hw>` and the brace
//! are dropped.

use vstd::prelude::*;
use vstd::slice::slice_subrange;
use crate::grammar::enclosed_run;
use crate::parser::read_enclosed_run;
use crate::roundtrip::lemma_enclosed_run;
use crate::text::{chars_of, eat, find_at, first_at, lemma_first_at, lit, push_range};

verus! {

/// A line that starts with `<hw>`, mended: every whole headword and what
/// stands between the headwords stays; after the last headword the text up
/// to a closing brace stays, the brace goes, and what follows it stays. Where
/// a `<hw>` opens no whole headword, that `<hw>` goes and the rest of the
/// line stays. `None` where no text and closing brace follow the last
/// headword.
pub open spec fn mended_line(line: Seq<char>) -> Option<Seq<char>>
    decreases line.len(),
{
    match enclosed_run(line, 0, "<hw>"@, false, "</hw>"@) {
        Some((_, e)) => match first_at(line, e, "<hw>"@) {
            Some(j) => if 0 < j <= line.len() {
                match mended_line(line.subrange(j, line.len() as int)) {
                    Some(rest) => Some(line.subrange(0, j) + rest),
                    None => None,
                }
            } else {
                None
            },
            None => match first_at(line, e, "}"@) {
                Some(g) => if e < g {
                    Some(line.subrange(0, g) + line.subrange(g + "}"@.len(), line.len() as int))
                } else {
                    None
                },
                None => None,
            },
        },
        None => match lit(line, 0, "<hw>"@) {
            Some(a) => Some(line.subrange(a, line.len() as int)),
            None => None,
        },
    }
}

/// `s` with every line mended from the place on where `<hw>` stands twice.
/// `None` where such a line has no newline at its end, or cannot be mended.
pub open spec fn undoubled(s: Seq<char>) -> Option<Seq<char>>
    decreases s.len(),
{
    match first_at(s, 0, "<hw><hw>"@) {
        Some(i) => match lit(s, i, "<hw>"@) {
            Some(p) => match first_at(s, p, "\n"@) {
                Some(n) => if 0 <= i < p < n <= s.len() {
                    match (mended_line(s.subrange(p, n)), undoubled(s.subrange(n, s.len() as int))) {
                        (Some(line), Some(rest)) => Some(s.subrange(0, i) + line + rest),
                        _ => None,
                    }
                } else {
                    None
                },
                None => None,
            },
            None => None,
        },
        None => Some(s),
    }
}

/// Mends a line that starts with `<hw>` and appends it to `out`. `false`
/// where the line cannot be mended; `out` then holds no more than a part of
/// the line.
fn push_mended_line(out: &mut String, line: &[char]) -> (ok: bool)
    ensures
        match mended_line(line@) {
            Some(mended) => ok && final(out)@ == old(out)@ + mended,
            None => !ok,
        },
{
    let mut cur: usize = 0;
    proof {
        assert(line@.subrange(0, line@.len() as int) =~= line@);
        if let Some(m) = mended_line(line@) {
            assert(out@ + m =~= old(out)@ + m);
        }
    }
    loop
        invariant
            cur <= line.len(),
            match mended_line(line@) {
                Some(mended) => mended_line(line@.subrange(cur as int, line@.len() as int)) matches Some(
                    m,
                ) && out@ + m == old(out)@ + mended,
                None => mended_line(line@.subrange(cur as int, line@.len() as int)) is None,
            },
        decreases line.len() - cur,
    {
        let rest = slice_subrange(line, cur, line.len());
        let ghost sofar = out@;
        let e = match read_enclosed_run(rest, 0, "<hw>", false, "</hw>") {
            Some((_, e)) => e,
            None => {
                return match eat(rest, 0, "<hw>") {
                    Some(a) => {
                        push_range(out, rest, a, rest.len());
                        true
                    },
                    None => false,
                };
            },
        };
        proof {
            reveal_strlit("<hw>");
            reveal_strlit("}");
            lemma_enclosed_run(rest@, 0, "<hw>"@, false, "</hw>"@);
            lemma_first_at(rest@, e as int, "<hw>"@);
            lemma_first_at(rest@, e as int, "}"@);
        }
        match find_at(rest, e, "<hw>") {
            Some((j, _)) => {
                proof {
                    let (text, _) = enclosed_run(rest@, 0, "<hw>"@, false, "</hw>"@).unwrap();
                    assert(("<hw>"@ + text + "</hw>"@).len() == rest@.subrange(0, e as int).len());
                }
                push_range(out, rest, 0, j);
                proof {
                    assert(rest@.subrange(j as int, rest@.len() as int) =~= line@.subrange(
                        cur + j,
                        line@.len() as int,
                    ));
                    if let Some(m) = mended_line(rest@.subrange(j as int, rest@.len() as int)) {
                        assert(out@ + m =~= sofar + (rest@.subrange(0, j as int) + m));
                    }
                }
                cur = cur + j;
            },
            None => {
                return match find_at(rest, e, "}") {
                    Some((g, h)) => {
                        if g <= e {
                            false
                        } else {
                            push_range(out, rest, 0, g);
                            push_range(out, rest, h, rest.len());
                            assert(out@ =~= sofar + (rest@.subrange(0, g as int) + rest@.subrange(
                                h as int,
                                rest@.len() as int,
                            )));
                            true
                        }
                    },
                    None => false,
                };
            },
        }
    }
}

/// Where `<hw>` stands twice it stands once, and no newline stands right
/// after the first.
proof fn lemma_doubled(s: Seq<char>, i: int)
    requires
        first_at(s, 0, "<hw><hw>"@) == Some(i),
    ensures
        lit(s, i, "<hw>"@) == Some(i + 4),
        first_at(s, i + 4, "\n"@) matches Some(n) ==> i + 4 < n <= s.len(),
{
    reveal_strlit("<hw><hw>");
    reveal_strlit("<hw>");
    reveal_strlit("\n");
    lemma_first_at(s, 0, "<hw><hw>"@);
    lemma_first_at(s, i + 4, "\n"@);
    let two = s.subrange(i, i + 8);
    assert(s.subrange(i, i + 4) =~= "<hw>"@) by {
        assert(two[0] == '<' && two[1] == 'h' && two[2] == 'w' && two[3] == '>');
    }
    if let Some(n) = first_at(s, i + 4, "\n"@) {
        if n == i + 4 {
            assert(two[4] == '<');
            assert(s.subrange(n, n + 1)[0] == '\n');
        }
    }
}

/// Mends every line of `contents` from the place on where `<hw>` stands
/// twice: the first `<hw>` and the closing brace after the last headword are
/// dropped. `None` where such a line has no newline at its end, or cannot be
/// mended.
pub fn undouble_hw(contents: &str) -> (r: Option<String>)
    ensures
        match r {
            Some(out) => undoubled(contents@) == Some(out@),
            None => undoubled(contents@) is None,
        },
{
    let buf = chars_of(contents);
    let mut out = String::new();
    let mut cur: usize = 0;
    proof {
        assert(buf@.subrange(0, buf@.len() as int) =~= buf@);
        if let Some(t) = undoubled(buf@) {
            assert(out@ + t =~= t);
        }
    }
    loop
        invariant
            cur <= buf.len(),
            buf@ == contents@,
            undoubled(contents@) == match undoubled(buf@.subrange(cur as int, buf@.len() as int)) {
                Some(t) => Some(out@ + t),
                None => None,
            },
        decreases buf.len() - cur,
    {
        let rest = slice_subrange(buf.as_slice(), cur, buf.len());
        let ghost sofar = out@;
        let i = match find_at(rest, 0, "<hw><hw>") {
            Some((i, _)) => i,
            None => {
                push_range(&mut out, rest, 0, rest.len());
                assert(rest@.subrange(0, rest@.len() as int) =~= rest@);
                return Some(out);
            },
        };
        let second = eat(rest, i, "<hw>");
        proof {
            lemma_doubled(rest@, i as int);
        }
        let p = second.unwrap();
        let n = match find_at(rest, p, "\n") {
            Some((n, _)) => n,
            None => {
                return None;
            },
        };
        push_range(&mut out, rest, 0, i);
        let ghost before = out@;
        if !push_mended_line(&mut out, slice_subrange(rest, p, n)) {
            return None;
        }
        proof {
            assert(rest@.subrange(n as int, rest@.len() as int) =~= buf@.subrange(
                cur + n,
                buf@.len() as int,
            ));
            let line = mended_line(rest@.subrange(p as int, n as int)).unwrap();
            if let Some(t) = undoubled(rest@.subrange(n as int, rest@.len() as int)) {
                assert(out@ + t =~= sofar + (rest@.subrange(0, i as int) + line + t));
            }
        }
        cur = cur + n;
    }
}

} // verus!
