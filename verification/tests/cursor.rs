use nomster::locate::{find_entry_end, find_entry_start};
use nomster::text::{eat, find_at, scan_run};
use nomster::{reassemble, EntryTag, ParaTag, Parser, SimpleTag};

fn chars(s: &str) -> Vec<char> {
    s.chars().collect()
}

const FIRST: &str = "<div id=\"MBP_TOC_1\" data-ascii=\"one\">\n<p><strong>One</strong> first</p>\n</div>\n";
const SECOND: &str = "<div id=\"MBP_TOC_2\" data-ascii=\"two\">\n<p>second</p>\n</div>\n";
const BROKEN: &str = "<div id=\"MBP_TOC_3\" data-ascii=\"bad\">\n<p>never <i>closed</p>\n</div>\n";

#[test]
fn yields_entries_with_skipped_text() {
    let doc = format!("<html>\n{}between\n{}</html>\n", FIRST, SECOND);
    let mut cursor = Parser::new(&doc);
    assert_eq!(cursor.remaining(), doc);
    let (skipped, entry) = cursor.next().unwrap();
    assert_eq!(skipped, "<html>\n");
    let entry = entry.unwrap();
    assert_eq!(entry.tocid, 1);
    assert_eq!(entry.word, "one");
    assert_eq!(entry.to_string(), FIRST);
    assert_eq!(cursor.remaining(), format!("between\n{}</html>\n", SECOND));
    let (skipped, entry) = cursor.next().unwrap();
    assert_eq!(skipped, "between\n");
    let entry = entry.unwrap();
    assert_eq!(
        entry.tags,
        vec![EntryTag::Para(vec![ParaTag::Simple(vec![SimpleTag::Plain("second".to_string())])])]
    );
    assert_eq!(cursor.remaining(), "</html>\n");
    assert_eq!(cursor.next(), None);
    assert_eq!(cursor.remaining(), "</html>\n");
    assert_eq!(cursor.next(), None);
}

#[test]
fn no_entry_at_all() {
    let mut cursor = Parser::new("no entries here");
    assert!(!cursor.is_unterminated());
    assert_eq!(cursor.next(), None);
    assert_eq!(cursor.remaining(), "no entries here");
    let mut cursor = Parser::new("");
    assert_eq!(cursor.try_next(), Ok(None));
    assert_eq!(cursor.remaining(), "");
}

#[test]
fn a_malformed_entry_does_not_stop_the_next() {
    let doc = format!("a{}b{}c", BROKEN, SECOND);
    let mut cursor = Parser::new(&doc);
    let (skipped, entry) = cursor.next().unwrap();
    assert_eq!(skipped, "a");
    assert_eq!(entry, Err(BROKEN.to_string()));
    let (skipped, entry) = cursor.next().unwrap();
    assert_eq!(skipped, "b");
    assert_eq!(entry.unwrap().to_string(), SECOND);
    assert_eq!(cursor.next(), None);
    assert_eq!(cursor.remaining(), "c");
}

#[test]
fn an_entry_ends_before_the_next_opening_marker() {
    let unclosed = "<div id=\"MBP_TOC_4\" data-ascii=\"x\">\n<p>no closing marker</p>\n";
    let doc = format!("{}{}tail", unclosed, SECOND);
    let mut cursor = Parser::new(&doc);
    let (skipped, entry) = cursor.next().unwrap();
    assert_eq!(skipped, "");
    assert_eq!(entry, Err(unclosed.to_string()));
    let (skipped, entry) = cursor.next().unwrap();
    assert_eq!(skipped, "");
    assert_eq!(entry.unwrap().tocid, 2);
    assert_eq!(cursor.remaining(), "tail");
}

#[test]
fn an_entry_without_end_stops_the_traversal() {
    let doc = format!("{}x<div id=\"MBP_TOC_5\" data-ascii=\"y\">\n<p>cut off", FIRST);
    let mut cursor = Parser::new(&doc);
    assert!(!cursor.is_unterminated());
    assert!(cursor.try_next().unwrap().is_some());
    assert!(cursor.is_unterminated());
    let before = cursor.remaining();
    assert_eq!(
        cursor.try_next(),
        Err("<div id=\"MBP_TOC_5\" data-ascii=\"y\">\n<p>cut off".to_string())
    );
    assert_eq!(cursor.remaining(), before);
    assert_eq!(before, "x<div id=\"MBP_TOC_5\" data-ascii=\"y\">\n<p>cut off");
}

#[test]
fn try_next_yields_what_next_yields() {
    let doc = format!("a{}b{}c", FIRST, BROKEN);
    let mut one = Parser::new(&doc);
    let mut two = Parser::new(&doc);
    loop {
        let item = one.next();
        assert_eq!(two.try_next(), Ok(item.clone()));
        assert_eq!(one.remaining(), two.remaining());
        if item.is_none() {
            break;
        }
    }
}

#[test]
fn reassemble_gives_the_document_back() {
    for doc in [
        String::new(),
        "no entries".to_string(),
        FIRST.to_string(),
        format!("<html>\n{}between\n{}\n{}</html>\n", FIRST, BROKEN, SECOND),
        format!("{}{}", SECOND, SECOND),
    ] {
        assert_eq!(reassemble(&doc), Ok(doc.clone()));
    }
}

#[test]
fn reassemble_writes_identifiers_in_upper_case() {
    let doc = "x<div id=\"MBP_TOC_0a\" data-ascii=\"w\">\n<p>t</p>\n</div>\ny";
    assert_eq!(
        reassemble(doc),
        Ok("x<div id=\"MBP_TOC_A\" data-ascii=\"w\">\n<p>t</p>\n</div>\ny".to_string())
    );
}

#[test]
fn reassemble_stops_at_an_entry_without_end() {
    let doc = format!("{}x<div id=\"MBP_TOC_5\" rest", FIRST);
    assert_eq!(reassemble(&doc), Err("<div id=\"MBP_TOC_5\" rest".to_string()));
}

#[test]
fn locating_an_entry() {
    let doc = chars("ab<div id=\"MBP_X\">cd</div>\nef<div id=\"MBP_");
    assert_eq!(find_entry_start(&doc), Some(2));
    assert_eq!(find_entry_end(&doc, 2), Some(27));
    assert_eq!(find_entry_start(&doc[27..]), Some(2));
    assert_eq!(find_entry_end(&doc[27..], 2), None);
    let doc = chars("<div id=\"MBP_A<div id=\"MBP_B</div>\n");
    assert_eq!(find_entry_start(&doc), Some(0));
    assert_eq!(find_entry_end(&doc, 0), Some(14));
    assert_eq!(find_entry_start(&chars("<div id=\"MBP")), None);
}

#[test]
fn text_primitives() {
    let buf = chars("ab<b>cd");
    assert_eq!(eat(&buf, 2, "<b>"), Some(5));
    assert_eq!(eat(&buf, 2, "<b>cde"), None);
    assert_eq!(eat(&buf, 1, "<b>"), None);
    assert_eq!(eat(&buf, 7, ""), Some(7));
    assert_eq!(eat(&buf, 8, ""), None);
    assert_eq!(find_at(&buf, 0, "<b>"), Some((2, 5)));
    assert_eq!(find_at(&buf, 3, "<b>"), None);
    assert_eq!(find_at(&buf, 0, "d"), Some((6, 7)));
    assert_eq!(find_at(&buf, 7, ""), Some((7, 7)));
    assert_eq!(find_at(&buf, 8, ""), None);
    assert_eq!(scan_run(&buf, 0, false), Some(2));
    assert_eq!(scan_run(&buf, 2, false), None);
    assert_eq!(scan_run(&buf, 5, false), None);
    let buf = chars("a[b]<");
    assert_eq!(scan_run(&buf, 0, true), Some(1));
    assert_eq!(scan_run(&buf, 0, false), Some(4));
}

#[test]
fn non_ascii_text_is_kept() {
    let text = "<div id=\"MBP_TOC_C\" data-ascii=\"Zollner's Lines\">\n<p><strong>Zöll´ner’s Lines</strong> “x” — y</p>\n</div>\n";
    let doc = format!("é{}ü", text);
    let mut cursor = Parser::new(&doc);
    let (skipped, entry) = cursor.next().unwrap();
    assert_eq!(skipped, "é");
    assert_eq!(entry.unwrap().to_string(), text);
    assert_eq!(cursor.remaining(), "ü");
}

#[test]
fn a_long_document_is_walked_through() {
    let mut doc = String::from("<html><body>\n");
    for i in 0..3000u32 {
        doc.push_str(&format!(
            "<div id=\"MBP_TOC_{:X}\" data-ascii=\"word{}\">\n<p><strong>Word{}</strong> [<i>pl.</i> of <a href=\"#MBP_TOC_{:X}\">other</a>] text</p>\n</div>\n\n",
            i + 1,
            i,
            i,
            i
        ));
    }
    doc.push_str("</body></html>\n");
    let mut cursor = Parser::new(&doc);
    let mut count = 0;
    let mut last = 0;
    while let Some((_, entry)) = cursor.next() {
        let entry = entry.unwrap();
        assert!(entry.tocid > last);
        last = entry.tocid;
        count += 1;
    }
    assert_eq!(count, 3000);
    assert_eq!(cursor.remaining(), "\n</body></html>\n");
    assert_eq!(reassemble(&doc), Ok(doc.clone()));
}
