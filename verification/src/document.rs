//! A document as the cursor sees it: the entries that it yields, the text
//! that is left after them, and the document put together again.

use vstd::prelude::*;
use vstd::string::StringExecFns;
use crate::cursor::Parser;
use crate::grammar::{ids_canonical, parse_entry_spec};
use crate::locate::{entry_start, first_entry, lemma_first_entry, unterminated};
use crate::roundtrip::law_round_trip;
use crate::tags::entry_markup;
use crate::text::{join, lemma_join_concat, lemma_join_push, lemma_pieces};

verus! {

/// What the cursor yields on `s`, entry by entry: the text skipped before the
/// entry, and the entry's own text. It stops where no entry is left, or
/// where an entry has no end.
pub open spec fn yields(s: Seq<char>) -> Seq<(Seq<char>, Seq<char>)>
    decreases s.len(),
{
    match first_entry(s) {
        Some((open, end)) => if 0 <= open <= end <= s.len() && 0 < end {
            seq![(s.subrange(0, open), s.subrange(open, end))] + yields(
                s.subrange(end, s.len() as int),
            )
        } else {
            Seq::empty()
        },
        None => Seq::empty(),
    }
}

/// The text that is left when the cursor has yielded all it can.
pub open spec fn tail(s: Seq<char>) -> Seq<char>
    decreases s.len(),
{
    match first_entry(s) {
        Some((open, end)) => if 0 <= open <= end <= s.len() && 0 < end {
            tail(s.subrange(end, s.len() as int))
        } else {
            s
        },
        None => s,
    }
}

/// An entry's text as it is written back: the markup of its tree where it
/// parses, the text itself where it does not.
pub open spec fn rendered(span: Seq<char>) -> Seq<char> {
    match parse_entry_spec(span) {
        Some(t) => entry_markup(t),
        None => span,
    }
}

/// What one yielded item contributes to the document: the skipped text, then
/// the entry as it is written back.
pub open spec fn piece(item: (Seq<char>, Seq<char>)) -> Seq<char> {
    item.0 + rendered(item.1)
}

/// The document put together again from what the cursor yields, with no
/// entry changed: every item's piece, then the text that is left.
pub open spec fn reassembled(s: Seq<char>) -> Seq<char> {
    join(yields(s), |item: (Seq<char>, Seq<char>)| piece(item)) + tail(s)
}

/// An entry's text that, where it parses, has its identifiers in the form in
/// which they are written back.
pub open spec fn writes_back(span: Seq<char>) -> bool {
    parse_entry_spec(span) is Some ==> ids_canonical(span)
}

/// An entry whose text writes back is written back as it was read.
pub proof fn lemma_rendered(span: Seq<char>)
    requires
        writes_back(span),
    ensures
        rendered(span) == span,
{
    if let Some(t) = parse_entry_spec(span) {
        law_round_trip(span, t);
    }
}

/// The document after its first entry: one item, and then what the rest of
/// the document gives taken alone.
pub proof fn lemma_first_item(s: Seq<char>)
    ensures
        match first_entry(s) {
            Some((open, end)) => {
                let rest = s.subrange(end, s.len() as int);
                &&& 0 <= open < end <= s.len()
                &&& yields(s) == seq![(s.subrange(0, open), s.subrange(open, end))] + yields(rest)
                &&& tail(s) == tail(rest)
                &&& reassembled(s) == s.subrange(0, open) + rendered(s.subrange(open, end))
                    + reassembled(rest)
            },
            None => yields(s).len() == 0 && tail(s) == s && reassembled(s) == s,
        },
{
    lemma_first_entry(s);
    let f = |item: (Seq<char>, Seq<char>)| piece(item);
    match first_entry(s) {
        Some((open, end)) => {
            let rest = s.subrange(end, s.len() as int);
            let item = (s.subrange(0, open), s.subrange(open, end));
            lemma_join_concat(seq![item], yields(rest), f);
            lemma_join_push(Seq::empty(), item, f);
            assert(Seq::<(Seq<char>, Seq<char>)>::empty().push(item) =~= seq![item]);
            assert(join(seq![item], f) =~= piece(item));
            assert(reassembled(s) =~= s.subrange(0, open) + rendered(s.subrange(open, end))
                + reassembled(rest));
        },
        None => {
            assert(reassembled(s) =~= s);
        },
    }
}

/// The entries found after an entry are those of the text that follows it,
/// taken alone, whatever became of the entry itself: one that does not parse
/// is yielded as its text, and stands in the way of none that follows.
pub proof fn law_failure_isolation(s: Seq<char>, open: int, end: int)
    requires
        first_entry(s) == Some((open, end)),
        parse_entry_spec(s.subrange(open, end)) is None,
    ensures
        yields(s).len() > 0,
        yields(s)[0] == (s.subrange(0, open), s.subrange(open, end)),
        rendered(yields(s)[0].1) == s.subrange(open, end),
        yields(s).drop_first() == yields(s.subrange(end, s.len() as int)),
        tail(s) == tail(s.subrange(end, s.len() as int)),
{
    lemma_first_item(s);
    let rest = s.subrange(end, s.len() as int);
    let item = (s.subrange(0, open), s.subrange(open, end));
    assert((seq![item] + yields(rest)).drop_first() =~= yields(rest));
}

/// A document whose entries all write back is put together again as it was:
/// the skipped texts, the entries written back and the text that is left
/// make up the document, character for character.
pub proof fn law_coverage(s: Seq<char>)
    requires
        forall|i: int| 0 <= i < yields(s).len() ==> writes_back(#[trigger] yields(s)[i].1),
    ensures
        reassembled(s) == s,
    decreases s.len(),
{
    lemma_first_item(s);
    if let Some((open, end)) = first_entry(s) {
        let rest = s.subrange(end, s.len() as int);
        let item = (s.subrange(0, open), s.subrange(open, end));
        assert(yields(s)[0] == item);
        lemma_rendered(item.1);
        assert forall|i: int| 0 <= i < yields(rest).len() implies writes_back(
            #[trigger] yields(rest)[i].1,
        ) by {
            assert(yields(s)[i + 1] == yields(rest)[i]);
        }
        law_coverage(rest);
        lemma_pieces(s, 0, open, end);
        lemma_pieces(s, 0, end, s.len() as int);
        assert(s.subrange(0, s.len() as int) =~= s);
    }
}

/// Puts a document together again from what the cursor yields, with no entry
/// changed: the skipped texts, every entry written back from its tree or, where
/// it did not parse, as its text, and the text that is left. Where an entry
/// has no end, the error holds the text from its opening marker on.
pub fn reassemble(contents: &str) -> (r: Result<String, String>)
    ensures
        match r {
            Ok(out) => !unterminated(tail(contents@)) && out@ == reassembled(contents@),
            Err(raw) => {
                &&& unterminated(tail(contents@))
                &&& entry_start(tail(contents@)) matches Some(open)
                &&& raw@ == tail(contents@).subrange(open, tail(contents@).len() as int)
            },
        },
{
    let mut out = String::new();
    let mut cursor = Parser::new(contents);
    proof {
        assert(out@ + reassembled(cursor@) =~= reassembled(contents@));
    }
    loop
        invariant
            out@ + reassembled(cursor@) == reassembled(contents@),
            tail(cursor@) == tail(contents@),
        decreases cursor@.len(),
    {
        let ghost before = cursor@;
        let ghost sofar = out@;
        proof {
            lemma_first_item(before);
        }
        match cursor.try_next() {
            Ok(Some((skipped, entry))) => {
                out.append(skipped.as_str());
                match entry {
                    Ok(tree) => {
                        tree.fmt(&mut out);
                    },
                    Err(raw) => {
                        out.append(raw.as_str());
                    },
                }
                proof {
                    let (open, end) = first_entry(before).unwrap();
                    assert(out@ =~= sofar + (before.subrange(0, open) + rendered(
                        before.subrange(open, end),
                    )));
                    assert(out@ + reassembled(cursor@) =~= sofar + reassembled(before));
                }
            },
            Ok(None) => {
                out.append(cursor.remaining());
                return Ok(out);
            },
            Err(raw) => {
                return Err(raw);
            },
        }
    }
}

} // verus!
