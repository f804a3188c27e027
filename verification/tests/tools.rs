use nomster::dos::{decode_dos, decoding_result, unix_lines};
use nomster::links::map_smart_insert;
use nomster::raw::word_can_head;
use nomster::unicode_list::unicode_list;
use std::collections::BTreeMap;
use nomster::parser::parse_entry;
use nomster::refs::{
    demote_refs, demote_word_refs, text_ends_with, text_joins_refs, text_leads_to_ref, trim,
    white_space,
};
use nomster::text::replace_all;
use nomster::unescape::to_unicode;
use nomster::{ParaTag, SimpleTag};

#[test]
fn replace_all_from_left_to_right() {
    assert_eq!(replace_all("aaa", "aa", "b"), "ba");
    assert_eq!(replace_all("abcabc", "bc", ""), "aa");
    assert_eq!(replace_all("abc", "x", "y"), "abc");
    assert_eq!(replace_all("", "x", "y"), "");
    assert_eq!(replace_all("xx", "x", "xx"), "xxxx");
    assert_eq!(replace_all("a´b´", "´", "'"), "a'b'");
    // an empty pattern occurs nowhere
    assert_eq!(replace_all("abc", "", "-"), "abc");
}

#[test]
fn unix_lines_drops_carriage_returns_before_line_feeds() {
    assert_eq!(unix_lines("a\r\nb\r\n"), "a\nb\n");
    assert_eq!(unix_lines("a\rb\n\r\r\n"), "a\rb\n\r\n");
    assert_eq!(unix_lines("no line end"), "no line end");
}

#[test]
fn decode_dos_reads_windows_1252() {
    assert_eq!(decode_dos(b"caf\xe9\r\n"), Ok("caf\u{e9}\r\n".to_string()));
    assert_eq!(decode_dos(b"\x80 \x93x\x94"), Ok("\u{20ac} \u{201c}x\u{201d}".to_string()));
    assert_eq!(decode_dos(b""), Ok(String::new()));
    assert_eq!(decode_dos(b"plain"), Ok("plain".to_string()));
}

#[test]
fn decode_dos_follows_a_byte_order_mark() {
    assert_eq!(decode_dos(b"\xef\xbb\xbfcaf\xc3\xa9"), Ok("caf\u{e9}".to_string()));
    let refused = decode_dos(b"\xef\xbb\xbfcaf\xe9").unwrap_err();
    assert!(refused.starts_with("utf-8 decoding error: "), "{}", refused);
}

#[test]
fn decoding_result_names_the_encoding() {
    assert_eq!(decoding_result(Ok("text".to_string()), "windows-1252"), Ok("text".to_string()));
    assert_eq!(
        decoding_result(Err("invalid sequence".to_string()), "windows-1252"),
        Err("windows-1252 decoding error: invalid sequence".to_string())
    );
}

#[test]
fn to_unicode_replaces_escapes() {
    assert_eq!(to_unicode("\\'3cb\\'3e"), "<b>");
    assert_eq!(to_unicode("Z\\'94llner"), "Z\u{f6}llner");
    assert_eq!(to_unicode("\\'d1dipus \\'d2"), "\u{152}dipus \u{153}");
    assert_eq!(to_unicode("a\\'fbb\\'f5"), "a\u{221a}b\u{2014}");
    assert_eq!(to_unicode("no escapes: \\'zz \\3c"), "no escapes: \\'zz \\3c");
    assert_eq!(to_unicode(""), "");
}

#[test]
fn suffixes() {
    let text: Vec<char> = "and see ".chars().collect();
    assert!(text_ends_with(&text, "see "));
    assert!(text_ends_with(&text, ""));
    assert!(text_ends_with(&text, "and see "));
    assert!(!text_ends_with(&text, "See "));
    assert!(!text_ends_with(&text, "x and see "));
    assert!(text_leads_to_ref(", pl. of "));
    assert!(text_leads_to_ref("See "));
    assert!(text_leads_to_ref("; see "));
    assert!(!text_leads_to_ref("see"));
    assert!(!text_leads_to_ref("sea "));
    assert!(text_joins_refs(","));
    assert!(text_joins_refs(" ,\n"));
    assert!(!text_joins_refs(", and"));
    assert!(!text_joins_refs(" "));
    assert!(!text_joins_refs(",,"));
}

fn plain(s: &str) -> SimpleTag {
    SimpleTag::Plain(s.to_string())
}

fn word_ref(s: &str) -> SimpleTag {
    SimpleTag::WordRef(7, s.to_string())
}

fn small_b(s: &str) -> SimpleTag {
    SimpleTag::SmallB(s.to_string())
}

#[test]
fn links_that_nothing_leads_to_are_demoted() {
    let emph = SimpleTag::Emph("pl.".to_string());
    let tags = vec![emph.clone(), plain(" "), word_ref("a"), plain(" of "), word_ref("b")];
    assert_eq!(
        demote_refs(&tags),
        vec![emph.clone(), plain(" "), small_b("a"), plain(" of "), word_ref("b")]
    );
    // a comma after a link that was kept leads to one more link
    let tags = vec![plain("See "), word_ref("a"), plain(", "), word_ref("b"), plain(" and "), word_ref("c")];
    assert_eq!(
        demote_refs(&tags),
        vec![plain("See "), word_ref("a"), plain(", "), word_ref("b"), plain(" and "), small_b("c")]
    );
    // two links in a row are both kept, another tag between them ends that
    let tags = vec![plain("see "), word_ref("a"), word_ref("b"), emph.clone(), word_ref("c")];
    assert_eq!(
        demote_refs(&tags),
        vec![plain("see "), word_ref("a"), word_ref("b"), emph.clone(), small_b("c")]
    );
    // a comma leads to nothing by itself
    let tags = vec![plain(", "), word_ref("a")];
    assert_eq!(demote_refs(&tags), vec![plain(", "), small_b("a")]);
    assert_eq!(demote_refs(&Vec::new()), Vec::new());
}

#[test]
fn only_grammatical_annotations_are_touched() {
    let text = "<div id=\"MBP_TOC_7\" data-ascii=\"w\">\n<p><a href=\"#MBP_TOC_1\">a</a>[<i>pl.</i> <a href=\"#MBP_TOC_2\">b</a>][<i>See</i> <a href=\"#MBP_TOC_3\">c</a>]</p>\n<blockquote>\n<p>q</p>\n</blockquote>\n</div>\n";
    let tree = parse_entry(text).unwrap();
    let patched = demote_word_refs(&tree);
    assert_eq!(
        patched.to_string(),
        "<div id=\"MBP_TOC_7\" data-ascii=\"w\">\n<p><a href=\"#MBP_TOC_1\">a</a>[<i>pl.</i> <small><b>b</b></small>][<i>See</i> <a href=\"#MBP_TOC_3\">c</a>]</p>\n<blockquote>\n<p>q</p>\n</blockquote>\n</div>\n"
    );
    assert_eq!(patched.tocid, 7);
    assert_eq!(patched.word, "w");
    // the annotation stays a grammatical one
    if let nomster::EntryTag::Para(tags) = &patched.tags[0] {
        assert!(matches!(tags[1], ParaTag::BoxedGrammar(_)));
        assert!(matches!(tags[2], ParaTag::Boxed(_)));
    } else {
        panic!("not a paragraph");
    }
    assert_eq!(tree.to_string(), text);
}

#[test]
fn link_words_are_recorded() {
    let mut map: BTreeMap<u32, (String, bool)> = BTreeMap::new();
    // a new target is recorded, in lower case and without stress marks
    assert!(!map_smart_insert(&mut map, 7, "Law´giv•er", false));
    assert_eq!(map.get(&7), Some(&("lawgiver".to_string(), false)));
    // the same word again
    assert!(!map_smart_insert(&mut map, 7, "LAWGIVER", false));
    // another word from a link: it differs, and takes the place of a word from a link
    assert!(map_smart_insert(&mut map, 7, "Judge", false));
    assert_eq!(map.get(&7), Some(&("judge".to_string(), false)));
    // the word of the target's own entry takes the place of any other
    assert!(map_smart_insert(&mut map, 7, "Lawgiver", true));
    assert_eq!(map.get(&7), Some(&("lawgiver".to_string(), true)));
    // and is not replaced by a word from a link
    assert!(map_smart_insert(&mut map, 7, "Judge", false));
    assert_eq!(map.get(&7), Some(&("lawgiver".to_string(), true)));
    assert!(!map_smart_insert(&mut map, 8, "Judge", true));
    assert_eq!(map.len(), 2);
}

#[test]
fn characters_beyond_ascii_are_noted() {
    assert_eq!(unicode_list("no markers"), Some(BTreeMap::new()));
    let notes = unicode_list(
        "<strong>Z\u{f6}ll´ner</strong> x <strong>c\u{f6}l</strong> <strong>\u{e6}on \u{e6}</strong>\n<strong>a\tb</strong>",
    )
    .unwrap();
    let mut expected = BTreeMap::new();
    // always followed by l
    expected.insert(0xf6, 'l' as u32);
    // followed by o, and then by nothing
    expected.insert(0xe6, 0);
    // a tab is below 20
    expected.insert(9, 'b' as u32);
    assert_eq!(notes, expected);
    // the stress mark is stripped before the characters are noted
    let notes = unicode_list("<strong>\u{e9}´x</strong><strong>\u{e9}x</strong>").unwrap();
    assert_eq!(notes.get(&0xe9), Some(&('x' as u32)));
    assert_eq!(notes.len(), 1);
    assert_eq!(unicode_list("<strong>open"), None);
}

#[test]
fn headwords_of_raw_entries() {
    assert!(word_can_head("Zöll´ner’s Lines"));
    assert!(word_can_head(""));
    assert!(!word_can_head("say \"x\""));
    assert!(!word_can_head("caf\u{e9}"));
}

#[test]
fn white_space_is_that_of_the_standard_library() {
    for u in 0..=0x10ffffu32 {
        if let Some(c) = char::from_u32(u) {
            assert_eq!(white_space(c), c.is_whitespace(), "{:x}", u);
        }
    }
}

#[test]
fn trim_is_that_of_the_standard_library() {
    for text in [
        "",
        " ",
        ",",
        " ,\n",
        ", ,",
        "\u{a0},\u{3000}",
        "\u{a0}a b\u{3000}",
        "\t\u{2003}x",
        "x\u{85}",
        "\u{200b}x\u{200b}",
        "\u{180e},",
        "a",
        "  a  b  ",
        "\u{1680}\u{2028}\u{2029}\u{202f}\u{205f}",
        "\u{2000}\u{200a},\r\n\u{b}\u{c}",
    ] {
        let buf: Vec<char> = text.chars().collect();
        let (from, to) = trim(&buf);
        let ours: String = buf[from..to].iter().collect();
        assert_eq!(ours, text.trim(), "{:?}", text);
        assert_eq!(text_joins_refs(text), text.trim() == ",", "{:?}", text);
    }
}
