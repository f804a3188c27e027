//! Small blue words in curly braces, which the html edition holds inside the
//! paragraph of another entry: each becomes the start of an entry of its own.

use vstd::prelude::*;
use vstd::slice::slice_subrange;
use vstd::string::StringExecFns;
use crate::text::{chars_of, eat, find_at, first_at, lemma_first_at, lit, push_range};

verus! {

/// What opens a small blue word.
pub const SMALL_OPEN: &'static str = "<small style=\"color: blue\"><b style=\"color: blue\">";

/// A blank, a tab, a carriage return or a newline.
pub open spec fn is_blank(c: char) -> bool {
    c == ' ' || c == '\t' || c == '\r' || c == '\n'
}

/// The first index at or after `from` that holds no blank, or the length of
/// `s` where there is none.
pub open spec fn blank_run_end(s: Seq<char>, from: int) -> int
    decreases s.len() - from,
{
    if from < 0 || from >= s.len() || !is_blank(s[from]) {
        from
    } else {
        blank_run_end(s, from + 1)
    }
}

/// Blanks or none, and something after them: the index of what follows.
pub open spec fn blanks(s: Seq<char>, pos: int) -> Option<int> {
    let e = blank_run_end(s, pos);
    if 0 <= pos <= e < s.len() {
        Some(e)
    } else {
        None
    }
}

/// A small blue word in curly braces at `pos`: the word, what follows it
/// within the braces, and the index after the closing brace. Blanks may stand
/// before and after the opening brace.
pub open spec fn small_words_in_curly(s: Seq<char>, pos: int) -> Option<(Seq<char>, Seq<char>, int)> {
    match blanks(s, pos) {
        Some(a) => match lit(s, a, "{"@) {
            Some(b) => match blanks(s, b) {
                Some(c) => match lit(s, c, SMALL_OPEN@) {
                    Some(d) => match first_at(s, d, "</b>"@) {
                        Some(e) => match lit(s, e, "</b></small>"@) {
                            Some(f) => match first_at(s, f, "}"@) {
                                Some(g) => match lit(s, g, "}"@) {
                                    Some(h) => Some((s.subrange(d, e), s.subrange(f, g), h)),
                                    None => None,
                                },
                                None => None,
                            },
                            None => None,
                        },
                        None => None,
                    },
                    None => None,
                },
                None => None,
            },
            None => None,
        },
        None => None,
    }
}

/// What is written in place of a small word in curly braces: the end of the
/// paragraph, an entry marked as new for the word, and a new paragraph that
/// starts with the word in big bold letters and goes on with what followed
/// it within the braces.
pub open spec fn new_entry_markup(word: Seq<char>, alts: Seq<char>) -> Seq<char> {
    "</p><idx:entry>\n<idx:orth value=\""@ + word + "\" data-mark=\"new\">\n</idx:entry>\n<p><big><b>"@
        + word + "</b></big>"@ + alts
}

/// `s` with every small word in curly braces made the start of an entry of
/// its own. Where an opening brace holds no such word, the line goes on as it
/// is.
pub open spec fn promoted(s: Seq<char>) -> Seq<char>
    decreases s.len(),
{
    match first_at(s, 0, "{"@) {
        Some(i) => match small_words_in_curly(s, i) {
            Some((word, alts, h)) => if 0 <= i < h <= s.len() {
                s.subrange(0, i) + new_entry_markup(word, alts) + promoted(
                    s.subrange(h, s.len() as int),
                )
            } else {
                s
            },
            None => match first_at(s, i, "\n"@) {
                Some(n) => if 0 <= i < n <= s.len() {
                    s.subrange(0, n) + promoted(s.subrange(n, s.len() as int))
                } else {
                    s
                },
                None => s,
            },
        },
        None => s,
    }
}

/// Tells whether `c` is a blank, a tab, a carriage return or a newline.
pub fn blank(c: char) -> (b: bool)
    ensures
        b == is_blank(c),
{
    c == ' ' || c == '\t' || c == '\r' || c == '\n'
}

/// Skips blanks at `pos`.
pub fn skip_blanks(buf: &[char], pos: usize) -> (r: Option<usize>)
    ensures
        match r {
            Some(e) => blanks(buf@, pos as int) == Some(e as int),
            None => blanks(buf@, pos as int) is None,
        },
{
    if pos >= buf.len() {
        return None;
    }
    let mut i: usize = pos;
    while i < buf.len() && blank(buf[i])
        invariant
            pos <= i <= buf.len(),
            blank_run_end(buf@, pos as int) == blank_run_end(buf@, i as int),
        decreases buf.len() - i,
    {
        i = i + 1;
    }
    if i < buf.len() {
        Some(i)
    } else {
        None
    }
}

/// Reads a small blue word in curly braces at `pos`: the word and what
/// follows it as indices into `buf`, and the index after the closing brace.
pub fn read_small_words(buf: &[char], pos: usize) -> (r: Option<((usize, usize), (usize, usize), usize)>)
    ensures
        match r {
            Some(((d, e), (f, g), h)) => d <= e <= f <= g <= h <= buf.len() && small_words_in_curly(
                buf@,
                pos as int,
            ) == Some((buf@.subrange(d as int, e as int), buf@.subrange(f as int, g as int), h as int)),
            None => small_words_in_curly(buf@, pos as int) is None,
        },
{
    let a = match skip_blanks(buf, pos) {
        Some(a) => a,
        None => {
            return None;
        },
    };
    let b = match eat(buf, a, "{") {
        Some(b) => b,
        None => {
            return None;
        },
    };
    let c = match skip_blanks(buf, b) {
        Some(c) => c,
        None => {
            return None;
        },
    };
    let d = match eat(buf, c, SMALL_OPEN) {
        Some(d) => d,
        None => {
            return None;
        },
    };
    let e = match find_at(buf, d, "</b>") {
        Some((e, _)) => e,
        None => {
            return None;
        },
    };
    proof {
        lemma_first_at(buf@, d as int, "</b>"@);
    }
    let f = match eat(buf, e, "</b></small>") {
        Some(f) => f,
        None => {
            return None;
        },
    };
    let (g, h) = match find_at(buf, f, "}") {
        Some(r) => r,
        None => {
            return None;
        },
    };
    proof {
        lemma_first_at(buf@, f as int, "}"@);
    }
    Some(((d, e), (f, g), h))
}

/// A newline does not stand where an opening brace stands, and a small word
/// in braces is not empty.
proof fn lemma_brace(s: Seq<char>, i: int)
    requires
        first_at(s, 0, "{"@) == Some(i),
    ensures
        first_at(s, i, "\n"@) matches Some(n) ==> i < n <= s.len(),
        small_words_in_curly(s, i) matches Some((_, _, h)) ==> i < h <= s.len(),
{
    reveal_strlit("{");
    reveal_strlit("}");
    reveal_strlit("\n");
    lemma_first_at(s, 0, "{"@);
    lemma_first_at(s, i, "\n"@);
    if let Some(n) = first_at(s, i, "\n"@) {
        if n == i {
            assert(s.subrange(i, i + 1)[0] == '{');
            assert(s.subrange(i, i + 1)[0] == '\n');
        }
    }
    if let Some((_, _, h)) = small_words_in_curly(s, i) {
        let a = blanks(s, i).unwrap();
        let b = lit(s, a, "{"@).unwrap();
        let c = blanks(s, b).unwrap();
        let d = lit(s, c, SMALL_OPEN@).unwrap();
        lemma_first_at(s, d, "</b>"@);
        let e = first_at(s, d, "</b>"@).unwrap();
        let f = lit(s, e, "</b></small>"@).unwrap();
        lemma_first_at(s, f, "}"@);
    }
}

/// Makes every small word in curly braces the start of an entry of its own.
/// Where an opening brace holds no such word, the line goes on as it is.
pub fn promote_small_words(contents: &str) -> (r: String)
    ensures
        r@ == promoted(contents@),
{
    let buf = chars_of(contents);
    let mut out = String::new();
    let mut cur: usize = 0;
    proof {
        assert(buf@.subrange(0, buf@.len() as int) =~= buf@);
        assert(out@ + promoted(buf@) =~= promoted(buf@));
    }
    loop
        invariant
            cur <= buf.len(),
            buf@ == contents@,
            out@ + promoted(buf@.subrange(cur as int, buf@.len() as int)) == promoted(contents@),
        decreases buf.len() - cur,
    {
        let rest = slice_subrange(buf.as_slice(), cur, buf.len());
        let ghost sofar = out@;
        let i = match find_at(rest, 0, "{") {
            Some((i, _)) => i,
            None => {
                push_range(&mut out, rest, 0, rest.len());
                assert(rest@.subrange(0, rest@.len() as int) =~= rest@);
                return out;
            },
        };
        proof {
            lemma_brace(rest@, i as int);
        }
        let next = match read_small_words(rest, i) {
            Some(((d, e), (f, g), h)) => {
                push_range(&mut out, rest, 0, i);
                out.append("</p><idx:entry>\n<idx:orth value=\"");
                push_range(&mut out, rest, d, e);
                out.append("\" data-mark=\"new\">\n</idx:entry>\n<p><big><b>");
                push_range(&mut out, rest, d, e);
                out.append("</b></big>");
                push_range(&mut out, rest, f, g);
                assert(out@ =~= sofar + (rest@.subrange(0, i as int) + new_entry_markup(
                    rest@.subrange(d as int, e as int),
                    rest@.subrange(f as int, g as int),
                )));
                h
            },
            None => match find_at(rest, i, "\n") {
                Some((n, _)) => {
                    push_range(&mut out, rest, 0, n);
                    n
                },
                None => {
                    push_range(&mut out, rest, 0, rest.len());
                    assert(rest@.subrange(0, rest@.len() as int) =~= rest@);
                    return out;
                },
            },
        };
        proof {
            assert(rest@.subrange(next as int, rest@.len() as int) =~= buf@.subrange(
                cur + next,
                buf@.len() as int,
            ));
            let tail = promoted(rest@.subrange(next as int, rest@.len() as int));
            assert(out@ + tail =~= sofar + promoted(rest@));
        }
        cur = cur + next;
    }
}

} // verus!
