//! Entry identifiers: hexadecimal tokens read as unsigned integers, and
//! integers written as upper-case hexadecimal.

use vstd::prelude::*;

verus! {

/// One of `0-9`, `a-f`, `A-F`.
pub open spec fn is_hex_digit(c: char) -> bool {
    ('0' <= c && c <= '9') || ('a' <= c && c <= 'f') || ('A' <= c && c <= 'F')
}

/// What a hexadecimal digit counts for.
pub open spec fn hex_digit_value(c: char) -> nat {
    if '0' <= c && c <= '9' {
        (c as u32 - '0' as u32) as nat
    } else if 'a' <= c && c <= 'f' {
        (c as u32 - 'a' as u32 + 10) as nat
    } else if 'A' <= c && c <= 'F' {
        (c as u32 - 'A' as u32 + 10) as nat
    } else {
        0
    }
}

/// The number that a token of hexadecimal digits denotes.
pub open spec fn hex_value(t: Seq<char>) -> nat
    decreases t.len(),
{
    if t.len() == 0 {
        0
    } else {
        hex_value(t.drop_last()) * 16 + hex_digit_value(t.last())
    }
}

/// The upper-case digit for a value below sixteen.
pub open spec fn upper_hex_digit(d: nat) -> char {
    if d < 10 {
        ('0' as u32 + d) as char
    } else {
        ('A' as u32 + d - 10) as char
    }
}

/// `n` in upper-case hexadecimal, without leading zeros.
pub open spec fn upper_hex(n: nat) -> Seq<char>
    decreases n,
{
    if n < 16 {
        seq![upper_hex_digit(n)]
    } else {
        upper_hex(n / 16).push(upper_hex_digit(n % 16))
    }
}

/// The first index at or after `from` that holds no hexadecimal digit, or the
/// length of `s` where there is none.
pub open spec fn hex_run_end(s: Seq<char>, from: int) -> int
    decreases s.len() - from,
{
    if from < 0 || from >= s.len() || !is_hex_digit(s[from]) {
        from
    } else {
        hex_run_end(s, from + 1)
    }
}

/// An identifier at `pos`: the longest run of hexadecimal digits, which is not
/// empty, is followed by another character and denotes a number that fits in
/// 32 bits. The result holds the number, the index after the run, and whether
/// the run is written as `upper_hex` writes the number.
pub open spec fn hex_id(s: Seq<char>, pos: int) -> Option<(u32, int, bool)> {
    let e = hex_run_end(s, pos);
    let t = s.subrange(pos, e);
    if 0 <= pos < e < s.len() && hex_value(t) <= u32::MAX {
        Some((hex_value(t) as u32, e, t == upper_hex(hex_value(t))))
    } else {
        None
    }
}

/// The value of a hexadecimal digit.
pub fn digit_of(c: char) -> (r: Option<u32>)
    ensures
        match r {
            Some(d) => is_hex_digit(c) && d == hex_digit_value(c) && d < 16,
            None => !is_hex_digit(c),
        },
{
    if '0' <= c && c <= '9' {
        Some(c as u32 - '0' as u32)
    } else if 'a' <= c && c <= 'f' {
        Some(c as u32 - 'a' as u32 + 10)
    } else if 'A' <= c && c <= 'F' {
        Some(c as u32 - 'A' as u32 + 10)
    } else {
        None
    }
}

/// Reads the identifier that starts at `pos`.
pub fn parse_hex_id(buf: &[char], pos: usize) -> (r: Option<(u32, usize)>)
    ensures
        match r {
            Some((v, e)) => hex_id(buf@, pos as int) matches Some((id, end, _)) && id == v && end
                == e,
            None => hex_id(buf@, pos as int) is None,
        },
{
    if pos >= buf.len() {
        return None;
    }
    let ghost s = buf@;
    let mut i: usize = pos;
    let mut acc: u64 = 0;
    let mut fits: bool = true;
    loop
        invariant
            s == buf@,
            pos <= i <= buf.len(),
            hex_run_end(s, pos as int) == hex_run_end(s, i as int),
            fits ==> acc == hex_value(s.subrange(pos as int, i as int)),
            fits ==> acc <= u32::MAX,
            !fits ==> hex_value(s.subrange(pos as int, i as int)) > u32::MAX,
        ensures
            i >= buf.len() || !is_hex_digit(s[i as int]),
        decreases buf.len() - i,
    {
        if i >= buf.len() {
            break;
        }
        let d = match digit_of(buf[i]) {
            Some(d) => d,
            None => {
                break;
            },
        };
        proof {
            let t = s.subrange(pos as int, i + 1);
            assert(t.drop_last() =~= s.subrange(pos as int, i as int));
            assert(t.last() == s[i as int]);
        }
        if fits {
            let next: u64 = acc * 16 + d as u64;
            if next > u32::MAX as u64 {
                fits = false;
            } else {
                acc = next;
            }
        }
        i = i + 1;
    }
    assert(i == hex_run_end(s, pos as int));
    if pos < i && i < buf.len() && fits {
        Some((acc as u32, i))
    } else {
        None
    }
}

/// Reads a whole token as an identifier: `None` where the token is empty,
/// holds anything but hexadecimal digits, or denotes a number beyond 32 bits.
pub fn toc_u32(toc: &str) -> (r: Option<u32>)
    ensures
        match r {
            Some(v) => toc@.len() > 0 && (forall|i: int| 0 <= i < toc@.len() ==> is_hex_digit(toc@[i]))
                && v == hex_value(toc@),
            None => toc@.len() == 0 || (exists|i: int| 0 <= i < toc@.len() && !is_hex_digit(toc@[i]))
                || hex_value(toc@) > u32::MAX,
        },
{
    let mut acc: u64 = 0;
    let mut any: bool = false;
    let mut fits: bool = true;
    for c in it: toc.chars()
        invariant
            it.seq() == toc@,
            any == (it.index() > 0),
            forall|i: int| 0 <= i < it.index() ==> is_hex_digit(toc@[i]),
            fits ==> acc == hex_value(toc@.take(it.index())) && acc <= u32::MAX,
            !fits ==> hex_value(toc@.take(it.index())) > u32::MAX,
    {
        let d = match digit_of(c) {
            Some(d) => d,
            None => {
                assert(!is_hex_digit(toc@[it.index()]));
                return None;
            },
        };
        proof {
            let t = toc@.take(it.index() + 1);
            assert(t.drop_last() =~= toc@.take(it.index()));
            assert(t.last() == c);
        }
        if fits {
            let next: u64 = acc * 16 + d as u64;
            if next > u32::MAX as u64 {
                fits = false;
            } else {
                acc = next;
            }
        }
        any = true;
    }
    assert(toc@.take(toc@.len() as int) =~= toc@);
    if any && fits {
        Some(acc as u32)
    } else {
        None
    }
}

/// The upper-case digit for `d`.
fn upper_digit(d: u32) -> (c: char)
    requires
        d < 16,
    ensures
        c == upper_hex_digit(d as nat),
{
    let d8: u8 = d as u8;
    if d8 < 10 {
        (48u8 + d8) as char
    } else {
        (55u8 + d8) as char
    }
}

/// Appends `n` in upper-case hexadecimal to `out`.
pub fn push_upper_hex(out: &mut String, n: u32)
    ensures
        final(out)@ == old(out)@ + upper_hex(n as nat),
    decreases n,
{
    if n >= 16 {
        push_upper_hex(out, n / 16);
    }
    out.push(upper_digit(n % 16));
    assert(out@ =~= old(out)@ + upper_hex(n as nat));
}

} // verus!
