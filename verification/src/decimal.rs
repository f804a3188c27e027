//! Decimal numbers in text: runs of digits read as unsigned integers, and
//! integers written in decimal.

use vstd::prelude::*;

verus! {

/// One of `0-9`.
pub open spec fn is_dec_digit(c: char) -> bool {
    '0' <= c && c <= '9'
}

/// The number that a token of decimal digits denotes.
pub open spec fn dec_value(t: Seq<char>) -> nat
    decreases t.len(),
{
    if t.len() == 0 {
        0
    } else {
        dec_value(t.drop_last()) * 10 + (t.last() as u32 - '0' as u32) as nat
    }
}

/// `n` in decimal, without leading zeros.
pub open spec fn decimal(n: nat) -> Seq<char>
    decreases n,
{
    if n < 10 {
        seq![('0' as u32 + n) as char]
    } else {
        decimal(n / 10).push(('0' as u32 + n % 10) as char)
    }
}

/// The first index at or after `from` that holds no decimal digit, or the
/// length of `s` where there is none.
pub open spec fn dec_run_end(s: Seq<char>, from: int) -> int
    decreases s.len() - from,
{
    if from < 0 || from >= s.len() || !is_dec_digit(s[from]) {
        from
    } else {
        dec_run_end(s, from + 1)
    }
}

/// A run of digits ends at or after its start, within the text.
pub proof fn lemma_dec_run_end(s: Seq<char>, from: int)
    requires
        0 <= from <= s.len(),
    ensures
        from <= dec_run_end(s, from) <= s.len(),
    decreases s.len() - from,
{
    if from < s.len() && is_dec_digit(s[from]) {
        lemma_dec_run_end(s, from + 1);
    }
}

/// The value of a decimal digit.
pub fn dec_digit_of(c: char) -> (r: Option<u32>)
    ensures
        match r {
            Some(d) => is_dec_digit(c) && d == c as u32 - '0' as u32 && d < 10,
            None => !is_dec_digit(c),
        },
{
    if '0' <= c && c <= '9' {
        Some(c as u32 - '0' as u32)
    } else {
        None
    }
}

/// Scans the run of decimal digits that starts at `pos`: the index after the
/// run, and the number that the run denotes where it fits in 32 bits.
pub fn scan_decimal(buf: &[char], pos: usize) -> (r: (usize, Option<u32>))
    requires
        pos <= buf.len(),
    ensures
        r.0 == dec_run_end(buf@, pos as int),
        pos <= r.0 <= buf.len(),
        match r.1 {
            Some(v) => v == dec_value(buf@.subrange(pos as int, r.0 as int)),
            None => dec_value(buf@.subrange(pos as int, r.0 as int)) > u32::MAX,
        },
{
    let ghost s = buf@;
    let mut i: usize = pos;
    let mut acc: u64 = 0;
    let mut fits: bool = true;
    proof {
        assert(s.subrange(pos as int, pos as int) =~= Seq::<char>::empty());
    }
    loop
        invariant
            s == buf@,
            pos <= i <= buf.len(),
            dec_run_end(s, pos as int) == dec_run_end(s, i as int),
            fits ==> acc == dec_value(s.subrange(pos as int, i as int)),
            fits ==> acc <= u32::MAX,
            !fits ==> dec_value(s.subrange(pos as int, i as int)) > u32::MAX,
        ensures
            i >= buf.len() || !is_dec_digit(s[i as int]),
        decreases buf.len() - i,
    {
        if i >= buf.len() {
            break;
        }
        let d = match dec_digit_of(buf[i]) {
            Some(d) => d,
            None => {
                break;
            },
        };
        proof {
            let t = s.subrange(pos as int, i + 1);
            assert(t.drop_last() =~= s.subrange(pos as int, i as int));
            assert(t.last() == s[i as int]);
        }
        if fits {
            let next: u64 = acc * 10 + d as u64;
            if next > u32::MAX as u64 {
                fits = false;
            } else {
                acc = next;
            }
        }
        i = i + 1;
    }
    if fits {
        (i, Some(acc as u32))
    } else {
        (i, None)
    }
}

/// Appends `n` in decimal to `out`.
pub fn push_decimal(out: &mut String, n: u32)
    ensures
        final(out)@ == old(out)@ + decimal(n as nat),
    decreases n,
{
    if n >= 10 {
        push_decimal(out, n / 10);
    }
    let d: u8 = (n % 10) as u8;
    out.push((48u8 + d) as char);
    assert(out@ =~= old(out)@ + decimal(n as nat));
}

} // verus!
