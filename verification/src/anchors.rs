//! Position anchors, as the html edition holds them before its entries are
//! numbered: empty `a` elements whose `id` is the word `filepos` and a decimal
//! number.

use vstd::prelude::*;
use vstd::slice::slice_subrange;
use vstd::string::StringExecFns;
use crate::decimal::{
    dec_run_end, dec_value, decimal, lemma_dec_run_end, push_decimal, scan_decimal,
};
use crate::text::{
    Bite, bite, chars_of, cut_short, find_at, first_at, join, lemma_first_at, lemma_join_push, lit,
    push_range,
};

verus! {

/// What an anchor starts with, up to its number.
pub const ANCHOR_OPEN: &'static str = "<a id=\"filepos";

/// What an anchor ends with, after its number.
pub const ANCHOR_CLOSE: &'static str = "\" />";

/// What stands at a place where an anchor is looked for.
pub enum Anchor {
    /// An anchor: its number, and the index after it.
    Read(u32, int),
    /// The beginning of an anchor that the end of the text cuts short, or an
    /// anchor whose number does not fit in 32 bits.
    Broken,
    /// Something else.
    Other,
}

/// Reads what stands at `pos` as an anchor.
pub open spec fn anchor(s: Seq<char>, pos: int) -> Anchor {
    match lit(s, pos, ANCHOR_OPEN@) {
        Some(a) => {
            let b = dec_run_end(s, a);
            if b >= s.len() {
                Anchor::Broken
            } else if b == a {
                Anchor::Other
            } else if dec_value(s.subrange(a, b)) > u32::MAX {
                Anchor::Broken
            } else {
                match lit(s, b, ANCHOR_CLOSE@) {
                    Some(e) => Anchor::Read(dec_value(s.subrange(a, b)) as u32, e),
                    None => if cut_short(s, b, ANCHOR_CLOSE@) {
                        Anchor::Broken
                    } else {
                        Anchor::Other
                    },
                }
            }
        },
        None => if cut_short(s, pos, ANCHOR_OPEN@) {
            Anchor::Broken
        } else {
            Anchor::Other
        },
    }
}

/// What `filepos_def` finds at a place.
#[derive(Clone, Copy, Debug, PartialEq, Eq)]
pub enum Found {
    /// An anchor: its number, and the index after it.
    Read(u32, usize),
    /// An anchor cut short, or one with too large a number.
    Broken,
    /// Something else.
    Other,
}

/// `found` tells what `anchor` gives.
pub open spec fn tells(found: Found, anchor: Anchor) -> bool {
    match found {
        Found::Read(v, e) => anchor == Anchor::Read(v, e as int),
        Found::Broken => anchor is Broken,
        Found::Other => anchor is Other,
    }
}

/// Reads what stands at `pos` as an anchor.
pub fn filepos_def(buf: &[char], pos: usize) -> (r: Found)
    ensures
        tells(r, anchor(buf@, pos as int)),
{
    let a = match bite(buf, pos, ANCHOR_OPEN) {
        Bite::Whole(a) => a,
        Bite::Short => {
            return Found::Broken;
        },
        Bite::Other => {
            return Found::Other;
        },
    };
    let (b, value) = scan_decimal(buf, a);
    if b >= buf.len() {
        return Found::Broken;
    }
    if b == a {
        return Found::Other;
    }
    let v = match value {
        Some(v) => v,
        None => {
            return Found::Broken;
        },
    };
    match bite(buf, b, ANCHOR_CLOSE) {
        Bite::Whole(e) => Found::Read(v, e),
        Bite::Short => Found::Broken,
        Bite::Other => Found::Other,
    }
}

/// The larger of two numbers.
pub open spec fn larger(a: u32, b: u32) -> u32 {
    if a >= b {
        a
    } else {
        b
    }
}

/// The largest number of an anchor in `s`, and zero where `s` holds none.
/// Every place where an anchor starts must hold a whole anchor: `None` where
/// one does not.
pub open spec fn max_filepos_spec(s: Seq<char>) -> Option<u32>
    decreases s.len(),
{
    match first_at(s, 0, ANCHOR_OPEN@) {
        Some(i) => match anchor(s, i) {
            Anchor::Read(v, e) => if 0 < e <= s.len() {
                match max_filepos_spec(s.subrange(e, s.len() as int)) {
                    Some(m) => Some(larger(v, m)),
                    None => None,
                }
            } else {
                None
            },
            _ => None,
        },
        None => Some(0),
    }
}

/// An anchor that was read lies within the text and is not empty.
pub proof fn lemma_anchor(s: Seq<char>, pos: int)
    ensures
        anchor(s, pos) matches Anchor::Read(_, e) ==> 0 <= pos < e <= s.len(),
{
    reveal_strlit("\" />");
    if let Some(a) = lit(s, pos, ANCHOR_OPEN@) {
        lemma_dec_run_end(s, a);
    }
}

/// Finds the largest number of an anchor in `contents`: zero where there is
/// no anchor, `None` where the beginning of an anchor is not followed by the
/// rest of one.
pub fn max_filepos(contents: &str) -> (r: Option<u32>)
    ensures
        r == max_filepos_spec(contents@),
{
    let buf = chars_of(contents);
    let mut cur: usize = 0;
    let mut max: u32 = 0;
    proof {
        assert(buf@.subrange(0, buf@.len() as int) =~= buf@);
    }
    loop
        invariant
            cur <= buf.len(),
            buf@ == contents@,
            max_filepos_spec(contents@) == match max_filepos_spec(
                buf@.subrange(cur as int, buf@.len() as int),
            ) {
                Some(m) => Some(larger(max, m)),
                None => None,
            },
        decreases buf.len() - cur,
    {
        let rest = slice_subrange(buf.as_slice(), cur, buf.len());
        let i = match find_at(rest, 0, ANCHOR_OPEN) {
            Some((i, _)) => i,
            None => {
                return Some(max);
            },
        };
        proof {
            lemma_anchor(rest@, i as int);
        }
        match filepos_def(rest, i) {
            Found::Read(v, e) => {
                assert(rest@.subrange(e as int, rest@.len() as int) =~= buf@.subrange(
                    cur + e,
                    buf@.len() as int,
                ));
                if v > max {
                    max = v;
                }
                cur = cur + e;
            },
            _ => {
                return None;
            },
        }
    }
}

/// The numbers of the anchors that stand one after the other from `pos` on,
/// and the index after the last of them; `None` where the row breaks off in
/// a broken anchor.
pub open spec fn anchor_run(s: Seq<char>, pos: int) -> Option<(Seq<u32>, int)>
    decreases s.len() - pos,
{
    match anchor(s, pos) {
        Anchor::Read(v, e) => if pos < e <= s.len() {
            match anchor_run(s, e) {
                Some((ids, end)) => Some((seq![v] + ids, end)),
                None => None,
            }
        } else {
            Some((Seq::empty(), pos))
        },
        Anchor::Broken => None,
        Anchor::Other => Some((Seq::empty(), pos)),
    }
}

/// `ids` without repetitions: every number stays where it first stands.
pub open spec fn distinct(ids: Seq<u32>) -> Seq<u32>
    decreases ids.len(),
{
    if ids.len() == 0 {
        Seq::empty()
    } else {
        let before = distinct(ids.drop_last());
        if before.contains(ids.last()) {
            before
        } else {
            before.push(ids.last())
        }
    }
}

/// The distinct numbers of the anchors in a row from `pos` on, and the index
/// after the row.
pub open spec fn filepos_deflist_spec(s: Seq<char>, pos: int) -> Option<(Seq<u32>, int)> {
    match anchor_run(s, pos) {
        Some((ids, end)) => Some((distinct(ids), end)),
        None => None,
    }
}

/// The markup of an anchor.
pub open spec fn anchor_markup(id: u32) -> Seq<char> {
    ANCHOR_OPEN@ + decimal(id as nat) + ANCHOR_CLOSE@
}

/// The markup of a row of anchors.
pub open spec fn anchors_markup(ids: Seq<u32>) -> Seq<char> {
    join(ids, |id: u32| anchor_markup(id))
}

/// `s` with every row of anchors written anew, each number once. `None`
/// where a row breaks off in a broken anchor, and where the beginning of an
/// anchor is not followed by a number.
pub open spec fn deduplicated(s: Seq<char>) -> Option<Seq<char>>
    decreases s.len(),
{
    match first_at(s, 0, ANCHOR_OPEN@) {
        Some(i) => match filepos_deflist_spec(s, i) {
            Some((ids, e)) => if 0 <= i < e <= s.len() {
                match deduplicated(s.subrange(e, s.len() as int)) {
                    Some(rest) => Some(s.subrange(0, i) + anchors_markup(ids) + rest),
                    None => None,
                }
            } else {
                None
            },
            None => None,
        },
        None => Some(s),
    }
}

/// Tells whether `ids` holds `id`.
pub fn holds(ids: &Vec<u32>, id: u32) -> (b: bool)
    ensures
        b == ids@.contains(id),
{
    let mut i: usize = 0;
    while i < ids.len()
        invariant
            i <= ids.len(),
            forall|j: int| 0 <= j < i ==> ids@[j] != id,
        decreases ids.len() - i,
    {
        if ids[i] == id {
            return true;
        }
        i = i + 1;
    }
    false
}

/// Reads the anchors that stand in a row from `pos` on: their distinct
/// numbers in the order in which each first stands, and the index after the
/// row. `None` where the row breaks off in a broken anchor.
pub fn filepos_deflist(buf: &[char], pos: usize) -> (r: Option<(Vec<u32>, usize)>)
    ensures
        match r {
            Some((ids, e)) => filepos_deflist_spec(buf@, pos as int) == Some((ids@, e as int)) && pos
                <= e && (pos <= buf.len() ==> e <= buf.len()),
            None => filepos_deflist_spec(buf@, pos as int) is None,
        },
{
    if pos > buf.len() {
        return Some((Vec::new(), pos));
    }
    let ghost s = buf@;
    let ghost mut raw: Seq<u32> = Seq::empty();
    let mut ids: Vec<u32> = Vec::new();
    let mut cur: usize = pos;
    proof {
        if let Some((more, _)) = anchor_run(s, pos as int) {
            assert(raw + more =~= more);
        }
    }
    loop
        invariant
            s == buf@,
            pos <= cur <= buf.len(),
            ids@ == distinct(raw),
            anchor_run(s, pos as int) == match anchor_run(s, cur as int) {
                Some((more, end)) => Some((raw + more, end)),
                None => None,
            },
        decreases buf.len() - cur,
    {
        proof {
            lemma_anchor(s, cur as int);
        }
        match filepos_def(buf, cur) {
            Found::Read(v, e) => {
                proof {
                    let next = raw.push(v);
                    assert(next.drop_last() =~= raw);
                    assert(next.last() == v);
                    if let Some((more, end)) = anchor_run(s, e as int) {
                        assert(raw + (seq![v] + more) =~= next + more);
                    }
                    raw = next;
                }
                if !holds(&ids, v) {
                    ids.push(v);
                }
                cur = e;
            },
            Found::Broken => {
                return None;
            },
            Found::Other => {
                assert(raw + Seq::<u32>::empty() =~= raw);
                return Some((ids, cur));
            },
        }
    }
}

/// Appends the markup of an anchor to `out`.
pub fn push_anchor(out: &mut String, id: u32)
    ensures
        final(out)@ == old(out)@ + anchor_markup(id),
{
    out.append(ANCHOR_OPEN);
    push_decimal(out, id);
    out.append(ANCHOR_CLOSE);
    assert(out@ =~= old(out)@ + anchor_markup(id));
}

/// Writes every row of anchors in `contents` anew, each number once and in
/// the order in which the numbers first stand. `None` where a row breaks off
/// in a broken anchor, and where the beginning of an anchor is not followed
/// by a number.
pub fn dedup_anchors(contents: &str) -> (r: Option<String>)
    ensures
        match r {
            Some(out) => deduplicated(contents@) == Some(out@),
            None => deduplicated(contents@) is None,
        },
{
    let buf = chars_of(contents);
    let mut out = String::new();
    let mut cur: usize = 0;
    proof {
        assert(buf@.subrange(0, buf@.len() as int) =~= buf@);
        if let Some(t) = deduplicated(buf@) {
            assert(out@ + t =~= t);
        }
    }
    loop
        invariant
            cur <= buf.len(),
            buf@ == contents@,
            deduplicated(contents@) == match deduplicated(
                buf@.subrange(cur as int, buf@.len() as int),
            ) {
                Some(t) => Some(out@ + t),
                None => None,
            },
        decreases buf.len() - cur,
    {
        let rest = slice_subrange(buf.as_slice(), cur, buf.len());
        let ghost sofar = out@;
        let i = match find_at(rest, 0, ANCHOR_OPEN) {
            Some((i, _)) => i,
            None => {
                push_range(&mut out, rest, 0, rest.len());
                assert(rest@.subrange(0, rest@.len() as int) =~= rest@);
                return Some(out);
            },
        };
        proof {
            lemma_first_at(rest@, 0, ANCHOR_OPEN@);
        }
        let (ids, e) = match filepos_deflist(rest, i) {
            Some(r) => r,
            None => {
                return None;
            },
        };
        if e <= i {
            return None;
        }
        push_range(&mut out, rest, 0, i);
        let ghost before = out@;
        let mut k: usize = 0;
        while k < ids.len()
            invariant
                k <= ids.len(),
                out@ == before + anchors_markup(ids@.take(k as int)),
            decreases ids.len() - k,
        {
            proof {
                lemma_join_push(ids@.take(k as int), ids@[k as int], |id: u32| anchor_markup(id));
                assert(ids@.take(k + 1) =~= ids@.take(k as int).push(ids@[k as int]));
            }
            push_anchor(&mut out, ids[k]);
            assert(out@ =~= before + anchors_markup(ids@.take(k + 1)));
            k = k + 1;
        }
        proof {
            assert(ids@.take(k as int) =~= ids@);
            assert(rest@.subrange(e as int, rest@.len() as int) =~= buf@.subrange(
                cur + e,
                buf@.len() as int,
            ));
            if let Some(t) = deduplicated(rest@.subrange(e as int, rest@.len() as int)) {
                assert(out@ + t =~= sofar + (rest@.subrange(0, i as int) + anchors_markup(ids@) + t));
            }
        }
        cur = cur + e;
    }
}

} // verus!
