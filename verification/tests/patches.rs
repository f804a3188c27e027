use nomster::anchors::{dedup_anchors, filepos_def, filepos_deflist, max_filepos, Found};
use nomster::decimal::{push_decimal, scan_decimal};
use nomster::doubled::undouble_hw;
use nomster::headwords::list_hws;
use nomster::small_words::promote_small_words;
use nomster::text::{bite, Bite};

fn chars(s: &str) -> Vec<char> {
    s.chars().collect()
}

#[test]
fn bite_tells_a_short_text_from_another() {
    let buf = chars("ab<a i");
    assert_eq!(bite(&buf, 2, "<a "), Bite::Whole(5));
    assert_eq!(bite(&buf, 2, "<a id"), Bite::Short);
    assert_eq!(bite(&buf, 2, "<a x"), Bite::Other);
    assert_eq!(bite(&buf, 2, "<b"), Bite::Other);
    assert_eq!(bite(&buf, 6, "x"), Bite::Short);
    assert_eq!(bite(&buf, 6, ""), Bite::Whole(6));
    assert_eq!(bite(&buf, 7, "x"), Bite::Other);
}

#[test]
fn decimal_numbers() {
    let buf = chars("x0042;4294967295 4294967296");
    assert_eq!(scan_decimal(&buf, 0), (0, Some(0)));
    assert_eq!(scan_decimal(&buf, 1), (5, Some(42)));
    assert_eq!(scan_decimal(&buf, 6), (16, Some(u32::MAX)));
    assert_eq!(scan_decimal(&buf, 17), (27, None));
    assert_eq!(scan_decimal(&buf, 27), (27, Some(0)));
    let mut out = String::from("n=");
    push_decimal(&mut out, 0);
    out.push(',');
    push_decimal(&mut out, 9);
    out.push(',');
    push_decimal(&mut out, 10);
    out.push(',');
    push_decimal(&mut out, 4294967295);
    assert_eq!(out, "n=0,9,10,4294967295");
}

#[test]
fn anchors_are_read() {
    let buf = chars("<a id=\"filepos0012\" /><a id=\"filepos7\" />x");
    assert_eq!(filepos_def(&buf, 0), Found::Read(12, 22));
    assert_eq!(filepos_def(&buf, 22), Found::Read(7, 41));
    assert_eq!(filepos_def(&buf, 41), Found::Other);
    assert_eq!(filepos_def(&buf, 1), Found::Other);
    assert_eq!(filepos_def(&buf, 42), Found::Broken);
    assert_eq!(filepos_def(&buf, 43), Found::Other);
    assert_eq!(filepos_def(&chars("<a id=\"filepos"), 0), Found::Broken);
    assert_eq!(filepos_def(&chars("<a id=\"filepos12"), 0), Found::Broken);
    assert_eq!(filepos_def(&chars("<a id=\"filepos12\" /"), 0), Found::Broken);
    assert_eq!(filepos_def(&chars("<a id=\"filepos12\" / >"), 0), Found::Other);
    assert_eq!(filepos_def(&chars("<a id=\"filepos\" />"), 0), Found::Other);
    assert_eq!(filepos_def(&chars("<a id=\"filepos4294967296\" />"), 0), Found::Broken);
    assert_eq!(filepos_def(&chars("<a id=\"filepos4294967295\" />"), 0), Found::Read(u32::MAX, 28));
}

#[test]
fn largest_anchor() {
    assert_eq!(max_filepos(""), Some(0));
    assert_eq!(max_filepos("no anchors"), Some(0));
    assert_eq!(
        max_filepos("a<a id=\"filepos12\" />b<a id=\"filepos345\" />c<a id=\"filepos9\" />"),
        Some(345)
    );
    assert_eq!(max_filepos("a<a id=\"filepos12\" />b<a id=\"filepos\" />"), None);
    assert_eq!(max_filepos("a<a id=\"filepos12\" />b<a id=\"filepos3"), None);
}

#[test]
fn rows_of_anchors() {
    let buf = chars("<a id=\"filepos3\" /><a id=\"filepos1\" /><a id=\"filepos3\" /><a id=\"filepos2\" />x");
    assert_eq!(filepos_deflist(&buf, 0), Some((vec![3, 1, 2], 76)));
    assert_eq!(filepos_deflist(&buf, 76), Some((vec![], 76)));
    assert_eq!(filepos_deflist(&buf, 77), None);
    assert_eq!(filepos_deflist(&chars("<a id=\"filepos3\" /><a id"), 0), None);
}

#[test]
fn repeated_anchors_are_written_once() {
    assert_eq!(dedup_anchors("no anchors"), Some("no anchors".to_string()));
    assert_eq!(
        dedup_anchors("a<a id=\"filepos3\" /><a id=\"filepos03\" />b<a id=\"filepos4\" /> c"),
        Some("a<a id=\"filepos3\" />b<a id=\"filepos4\" /> c".to_string())
    );
    assert_eq!(
        dedup_anchors("<a id=\"filepos2\" /><a id=\"filepos1\" /><a id=\"filepos2\" />\n"),
        Some("<a id=\"filepos2\" /><a id=\"filepos1\" />\n".to_string())
    );
    // the text ends within an anchor
    assert_eq!(dedup_anchors("a<a id=\"filepos3\" /><a id=\"file"), None);
    // the beginning of an anchor without a number
    assert_eq!(dedup_anchors("a<a id=\"fileposx\" />b"), None);
}

#[test]
fn headwords_are_listed() {
    assert_eq!(list_hws(""), Some(String::new()));
    assert_eq!(list_hws("no headword\n"), Some(String::new()));
    assert_eq!(
        list_hws("x <hw>A*bate\"</hw>, v. t.\nbody\n<hw>Ab\"bey</hw>, <hw>Ab\"by</hw> n.\n"),
        Some("A*bate\"\nAb\"bey|Ab\"by\n".to_string())
    );
    // a <hw> that opens no whole headword ends the line's list
    assert_eq!(list_hws("<hw>A</hw> <hw>B\n<hw></hw>\n"), Some("A|\n\n".to_string()));
    assert_eq!(list_hws("<hw>A\n"), Some("\n".to_string()));
    // the last line with a headword has no newline
    assert_eq!(list_hws("<hw>A</hw>"), None);
}

#[test]
fn small_words_become_entries() {
    let open = "<small style=\"color: blue\"><b style=\"color: blue\">";
    let doc = format!("<p>a {{ {}Word</b></small>, alt.}} b</p>\n", open);
    assert_eq!(
        promote_small_words(&doc),
        "<p>a </p><idx:entry>\n<idx:orth value=\"Word\" data-mark=\"new\">\n</idx:entry>\n<p><big><b>Word</b></big>, alt. b</p>\n"
    );
    assert_eq!(promote_small_words("no braces"), "no braces");
    // braces that hold no small word stay as they are
    assert_eq!(promote_small_words("a {b} c\nd {e"), "a {b} c\nd {e");
    // after braces that hold no small word, the rest of the line stays as it is
    let doc = format!("x {{y}} {{{}W</b></small>}}z", open);
    assert_eq!(promote_small_words(&doc), doc);
    let doc = format!("x {{y}}\n{{\n{}W</b></small>}}z", open);
    assert_eq!(
        promote_small_words(&doc),
        "x {y}\n</p><idx:entry>\n<idx:orth value=\"W\" data-mark=\"new\">\n</idx:entry>\n<p><big><b>W</b></big>z"
    );
}

#[test]
fn doubled_headwords_are_mended() {
    assert_eq!(undouble_hw("nothing doubled\n"), Some("nothing doubled\n".to_string()));
    assert_eq!(
        undouble_hw("a <hw><hw>Abc</hw>, <hw>Def</hw> or so} n.\nnext\n"),
        Some("a <hw>Abc</hw>, <hw>Def</hw> or so n.\nnext\n".to_string())
    );
    // an unclosed headword: its <hw> goes
    assert_eq!(
        undouble_hw("<hw><hw>Abc</hw>, <hw>Def or so\n"),
        Some("<hw>Abc</hw>, Def or so\n".to_string())
    );
    assert_eq!(undouble_hw("<hw><hw>Abc\nx"), Some("Abc\nx".to_string()));
    // no closing brace after the last headword
    assert_eq!(undouble_hw("<hw><hw>Abc</hw> n.\n"), None);
    // the closing brace right after the last headword
    assert_eq!(undouble_hw("<hw><hw>Abc</hw>}\n"), None);
    // no newline at the end of the line
    assert_eq!(undouble_hw("<hw><hw>Abc</hw> x}"), None);
    assert_eq!(
        undouble_hw("<hw><hw>A</hw> x}\n<hw><hw>B</hw> y} z\n"),
        Some("<hw>A</hw> x\n<hw>B</hw> y z\n".to_string())
    );
}
