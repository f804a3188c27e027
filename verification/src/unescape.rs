//! Escapes of the form backslash, apostrophe and two hexadecimal digits, as
//! the plain-text edition of the dictionary writes the characters that ASCII
//! lacks, and the characters that they stand for.

use vstd::prelude::*;
use crate::text::{replace_all, replaced};

verus! {

/// The escapes and what each stands for, in the order in which they are
/// replaced.
pub open spec fn symmap() -> Seq<(Seq<char>, Seq<char>)> {
    seq![
        ("\\'3c"@, "\u{3c}"@),
        ("\\'3e"@, "\u{3e}"@),
        ("\\'80"@, "\u{c7}"@),
        ("\\'81"@, "\u{fc}"@),
        ("\\'82"@, "\u{e9}"@),
        ("\\'83"@, "\u{e2}"@),
        ("\\'84"@, "\u{e4}"@),
        ("\\'85"@, "\u{e0}"@),
        ("\\'86"@, "\u{e5}"@),
        ("\\'87"@, "\u{e7}"@),
        ("\\'88"@, "\u{ea}"@),
        ("\\'89"@, "\u{eb}"@),
        ("\\'8a"@, "\u{e8}"@),
        ("\\'8b"@, "\u{ef}"@),
        ("\\'8c"@, "\u{ee}"@),
        ("\\'8d"@, "\u{ec}"@),
        ("\\'8e"@, "\u{c4}"@),
        ("\\'90"@, "\u{c9}"@),
        ("\\'91"@, "\u{e6}"@),
        ("\\'92"@, "\u{c6}"@),
        ("\\'93"@, "\u{f4}"@),
        ("\\'94"@, "\u{f6}"@),
        ("\\'95"@, "\u{f2}"@),
        ("\\'96"@, "\u{fb}"@),
        ("\\'97"@, "\u{f9}"@),
        ("\\'98"@, "\u{ff}"@),
        ("\\'99"@, "\u{d6}"@),
        ("\\'9a"@, "\u{dc}"@),
        ("\\'9c"@, "\u{a3}"@),
        ("\\'a0"@, "\u{e1}"@),
        ("\\'a1"@, "\u{ed}"@),
        ("\\'a2"@, "\u{f3}"@),
        ("\\'a3"@, "\u{fa}"@),
        ("\\'a4"@, "\u{f1}"@),
        ("\\'a5"@, "\u{d1}"@),
        ("\\'a9"@, "\u{2033}"@),
        ("\\'b0"@, "\u{fffd}"@),
        ("\\'b7"@, "\u{2032}"@),
        ("\\'b8"@, "\u{201d}"@),
        ("\\'bc"@, "\u{a7}"@),
        ("\\'bd"@, "\u{201c}"@),
        ("\\'be"@, "\u{101}"@),
        ("\\'bf"@, "\u{2018}"@),
        ("\\'c1"@, "\u{266f}"@),
        ("\\'c2"@, "\u{266d}"@),
        ("\\'c6"@, "\u{12b}"@),
        ("\\'c7"@, "\u{113}"@),
        ("\\'cb"@, "\u{115}"@),
        ("\\'cc"@, "\u{12d}"@),
        ("\\'ce"@, "\u{14f}"@),
        ("\\'cf"@, "\u{2013}"@),
        ("\\'d0"@, "\u{2014}"@),
        ("\\'d1"@, "\u{152}"@),
        ("\\'d2"@, "\u{153}"@),
        ("\\'d3"@, "\u{14d}"@),
        ("\\'d4"@, "\u{16b}"@),
        ("\\'d5"@, "\u{1d2}"@),
        ("\\'d6"@, "\u{1e3}"@),
        ("\\'d8"@, "\u{2225}"@),
        ("\\'dc"@, "\u{16d}"@),
        ("\\'dd"@, "\u{103}"@),
        ("\\'de"@, "\u{2d8}"@),
        ("\\'df"@, "\u{233}"@),
        ("\\'ed"@, "\u{fe}"@),
        ("\\'ee"@, "\u{e3}"@),
        ("\\'f5"@, "\u{2014}"@),
        ("\\'f6"@, "\u{f7}"@),
        ("\\'f7"@, "\u{2248}"@),
        ("\\'f8"@, "\u{b0}"@),
        ("\\'f9"@, "\u{2022}"@),
        ("\\'fb"@, "\u{221a}"@),
    ]
}

/// `s` with the first `n` escapes of the table replaced, one escape after the
/// other.
pub open spec fn unescaped(s: Seq<char>, n: nat) -> Seq<char>
    decreases n,
{
    if n == 0 {
        s
    } else {
        let row = symmap()[n - 1];
        replaced(unescaped(s, (n - 1) as nat), row.0, row.1)
    }
}

/// `s` with every escape of the table replaced by its character.
pub open spec fn to_unicode_spec(s: Seq<char>) -> Seq<char> {
    unescaped(s, symmap().len())
}

/// Row `i` of the table.
fn symbol(i: usize) -> (row: (&'static str, &'static str))
    requires
        i < 71,
    ensures
        symmap().len() == 71,
        row.0@ == symmap()[i as int].0,
        row.1@ == symmap()[i as int].1,
{
    match i {
        0 => ("\\'3c", "\u{3c}"),
        1 => ("\\'3e", "\u{3e}"),
        2 => ("\\'80", "\u{c7}"),
        3 => ("\\'81", "\u{fc}"),
        4 => ("\\'82", "\u{e9}"),
        5 => ("\\'83", "\u{e2}"),
        6 => ("\\'84", "\u{e4}"),
        7 => ("\\'85", "\u{e0}"),
        8 => ("\\'86", "\u{e5}"),
        9 => ("\\'87", "\u{e7}"),
        10 => ("\\'88", "\u{ea}"),
        11 => ("\\'89", "\u{eb}"),
        12 => ("\\'8a", "\u{e8}"),
        13 => ("\\'8b", "\u{ef}"),
        14 => ("\\'8c", "\u{ee}"),
        15 => ("\\'8d", "\u{ec}"),
        16 => ("\\'8e", "\u{c4}"),
        17 => ("\\'90", "\u{c9}"),
        18 => ("\\'91", "\u{e6}"),
        19 => ("\\'92", "\u{c6}"),
        20 => ("\\'93", "\u{f4}"),
        21 => ("\\'94", "\u{f6}"),
        22 => ("\\'95", "\u{f2}"),
        23 => ("\\'96", "\u{fb}"),
        24 => ("\\'97", "\u{f9}"),
        25 => ("\\'98", "\u{ff}"),
        26 => ("\\'99", "\u{d6}"),
        27 => ("\\'9a", "\u{dc}"),
        28 => ("\\'9c", "\u{a3}"),
        29 => ("\\'a0", "\u{e1}"),
        30 => ("\\'a1", "\u{ed}"),
        31 => ("\\'a2", "\u{f3}"),
        32 => ("\\'a3", "\u{fa}"),
        33 => ("\\'a4", "\u{f1}"),
        34 => ("\\'a5", "\u{d1}"),
        35 => ("\\'a9", "\u{2033}"),
        36 => ("\\'b0", "\u{fffd}"),
        37 => ("\\'b7", "\u{2032}"),
        38 => ("\\'b8", "\u{201d}"),
        39 => ("\\'bc", "\u{a7}"),
        40 => ("\\'bd", "\u{201c}"),
        41 => ("\\'be", "\u{101}"),
        42 => ("\\'bf", "\u{2018}"),
        43 => ("\\'c1", "\u{266f}"),
        44 => ("\\'c2", "\u{266d}"),
        45 => ("\\'c6", "\u{12b}"),
        46 => ("\\'c7", "\u{113}"),
        47 => ("\\'cb", "\u{115}"),
        48 => ("\\'cc", "\u{12d}"),
        49 => ("\\'ce", "\u{14f}"),
        50 => ("\\'cf", "\u{2013}"),
        51 => ("\\'d0", "\u{2014}"),
        52 => ("\\'d1", "\u{152}"),
        53 => ("\\'d2", "\u{153}"),
        54 => ("\\'d3", "\u{14d}"),
        55 => ("\\'d4", "\u{16b}"),
        56 => ("\\'d5", "\u{1d2}"),
        57 => ("\\'d6", "\u{1e3}"),
        58 => ("\\'d8", "\u{2225}"),
        59 => ("\\'dc", "\u{16d}"),
        60 => ("\\'dd", "\u{103}"),
        61 => ("\\'de", "\u{2d8}"),
        62 => ("\\'df", "\u{233}"),
        63 => ("\\'ed", "\u{fe}"),
        64 => ("\\'ee", "\u{e3}"),
        65 => ("\\'f5", "\u{2014}"),
        66 => ("\\'f6", "\u{f7}"),
        67 => ("\\'f7", "\u{2248}"),
        68 => ("\\'f8", "\u{b0}"),
        69 => ("\\'f9", "\u{2022}"),
        _ => ("\\'fb", "\u{221a}"),
    }
}

/// Replaces every escape in `contents` by the character that it stands for.
pub fn to_unicode(contents: &str) -> (r: String)
    ensures
        r@ == to_unicode_spec(contents@),
{
    let mut text = contents.to_owned();
    let mut i: usize = 0;
    while i < 71
        invariant
            i <= 71,
            symmap().len() == 71,
            text@ == unescaped(contents@, i as nat),
        decreases 71 - i,
    {
        let (pat, rep) = symbol(i);
        text = replace_all(text.as_str(), pat, rep);
        i = i + 1;
    }
    text
}

} // verus!
