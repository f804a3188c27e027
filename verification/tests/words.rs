use nomster::hex::toc_u32;
use nomster::words::{is_ascii_representable, strip_stress, to_id, word_to_ascii};

#[test]
fn strip_stress_test() {
    assert_eq!(strip_stress("A•mœ´ba"), "Amœba");
    assert_eq!(strip_stress("Law´giv•er"), "Lawgiver");
    assert_eq!(strip_stress("Zöll´ner’s Lines"), "Zöllner’s Lines");
    assert_eq!(strip_stress("Zee´man ef•fect´"), "Zeeman effect");
}

#[test]
fn word_to_ascii_test() {
    assert_eq!(word_to_ascii("A•mœ´ba"), "Amoeba");
    assert_eq!(word_to_ascii("Law´giv•er"), "Lawgiver");
    assert_eq!(word_to_ascii("Zöll´ner’s Lines"), "Zollner's Lines");
    assert_eq!(word_to_ascii("Zee´man-ef•fect´"), "Zeeman-effect");
}

#[test]
fn strip_stress_of_nothing_and_of_marks_only() {
    assert_eq!(strip_stress(""), "");
    assert_eq!(strip_stress("´•´"), "");
    assert_eq!(strip_stress("plain"), "plain");
}

#[test]
fn strip_stress_twice_is_once() {
    for w in ["A•mœ´ba", "Law´giv•er", "Zöll´ner’s Lines", "", "´´"] {
        let once = strip_stress(w);
        assert_eq!(strip_stress(&once), once);
    }
}

#[test]
fn word_to_ascii_with_plain_apostrophe() {
    assert_eq!(word_to_ascii("Zöll´ner's Lines"), "Zollner's Lines");
}

#[test]
fn word_to_ascii_table() {
    assert_eq!(word_to_ascii("Ç"), "C");
    assert_eq!(word_to_ascii("àáâãä"), "aaaaa");
    assert_eq!(word_to_ascii("ç"), "c");
    assert_eq!(word_to_ascii("èêë"), "eee");
    assert_eq!(word_to_ascii("îï"), "ii");
    assert_eq!(word_to_ascii("ñ"), "n");
    assert_eq!(word_to_ascii("óôö"), "ooo");
    assert_eq!(word_to_ascii("ùûü"), "uuu");
    assert_eq!(word_to_ascii("\u{1d49}\u{1d57}"), "et");
    assert_eq!(word_to_ascii("\u{2019}"), "'");
    assert_eq!(word_to_ascii("Œœ"), "OEoe");
}

#[test]
fn an_accented_letter_becomes_its_base_letter() {
    assert_eq!(word_to_ascii("Fa\u{e7}ade"), "Facade");
    assert_eq!(word_to_ascii("\u{c7}a ira"), "Ca ira");
    assert_eq!(to_id("Fa\u{e7}´ade"), "facade");
}

#[test]
fn word_to_ascii_twice_is_once() {
    for w in ["A•mœ´ba", "Zöll´ner’s Lines", "Zee´man-ef•fect´", "Œdipus"] {
        let once = word_to_ascii(w);
        assert!(once.is_ascii());
        assert!(is_ascii_representable(&once));
        assert_eq!(word_to_ascii(&once), once);
    }
}

#[test]
fn representable_words() {
    assert!(is_ascii_representable("A•mœ´ba"));
    assert!(is_ascii_representable("Zöll´ner’s Lines"));
    assert!(is_ascii_representable(""));
    // e with acute accent is not in the table
    assert!(!is_ascii_representable("caf\u{e9}"));
    assert!(!is_ascii_representable("\u{201c}quoted\u{201d}"));
    assert!(!is_ascii_representable("ab\u{e5}"));
}

#[test]
fn to_id_example() {
    assert_eq!(to_id("Zöll´ner's Lines"), "zollners_lines");
    assert_eq!(to_id("Zöll´ner’s Lines"), "zollners_lines");
}

#[test]
fn to_id_lowers_and_joins() {
    assert_eq!(to_id("Law´giv•er"), "lawgiver");
    assert_eq!(to_id("Zee´man-ef•fect´"), "zeeman-effect");
    assert_eq!(to_id("A B  C"), "a_b__c");
    assert_eq!(to_id("Œdipus Rex"), "oedipus_rex");
    assert_eq!(to_id("x_1"), "x_1");
    assert_eq!(to_id(""), "");
}

#[test]
fn to_id_twice_is_once() {
    for w in ["Zöll´ner's Lines", "A•mœ´ba", "Mr. X", "O'Neil's"] {
        let once = to_id(w);
        assert_eq!(to_id(&once), once);
    }
}

#[test]
fn to_id_alphabet() {
    let id = to_id("Zöll´ner's Lines-2");
    assert!(id.chars().all(|c| c.is_ascii_lowercase() || c.is_ascii_digit() || c == '_' || c == '-'));
    // other punctuation is kept as it is
    assert_eq!(to_id("Mr. X"), "mr._x");
}

#[test]
fn toc_u32_reads_hexadecimal() {
    assert_eq!(toc_u32("0"), Some(0));
    assert_eq!(toc_u32("1A2b"), Some(0x1a2b));
    assert_eq!(toc_u32("000F"), Some(15));
    assert_eq!(toc_u32("FFFFFFFF"), Some(u32::MAX));
    assert_eq!(toc_u32("ffffffff"), Some(u32::MAX));
}

#[test]
fn toc_u32_refuses() {
    assert_eq!(toc_u32(""), None);
    assert_eq!(toc_u32("12G"), None);
    assert_eq!(toc_u32("+1A"), None);
    assert_eq!(toc_u32("100000000"), None);
    assert_eq!(toc_u32("FFFFFFFFF"), None);
}
