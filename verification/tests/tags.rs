use nomster::parser::{classify_boxed, is_gram_marker, parse_entry, toc_link};
use nomster::raw::write_html;
use nomster::{EntryTag, ParaTag, RawEntry, SimpleTag, TaggedEntry};

fn chars(s: &str) -> Vec<char> {
    s.chars().collect()
}

fn entry_of(body: &str) -> String {
    format!("<div id=\"MBP_TOC_1A2B\" data-ascii=\"ABC\">\n{}</div>\n", body)
}

fn parsed(body: &str) -> TaggedEntry {
    let text = entry_of(body);
    let tree = parse_entry(&text).expect("the entry parses");
    assert_eq!(tree.to_string(), text);
    tree
}

fn para_of(body: &str) -> Vec<ParaTag> {
    let tree = parsed(&format!("<p>{}</p>\n", body));
    assert_eq!(tree.tags.len(), 1);
    match &tree.tags[0] {
        EntryTag::Para(tags) => tags.clone(),
        other => panic!("not a paragraph: {:?}", other),
    }
}

#[test]
fn single_paragraph_entry() {
    let text = "<div id=\"MBP_TOC_1A2B\" data-ascii=\"ABC\">\n<p>body</p>\n</div>\n";
    let tree = parse_entry(text).unwrap();
    assert_eq!(tree.tocid, 0x1a2b);
    assert_eq!(tree.word, "ABC");
    assert_eq!(
        tree.tags,
        vec![EntryTag::Para(vec![ParaTag::Simple(vec![SimpleTag::Plain("body".to_string())])])]
    );
    assert_eq!(tree.to_string(), text);
}

#[test]
fn grammar_marker_classifies_boxed_group() {
    let tags = para_of("[<i>pl.</i> of foo]");
    assert_eq!(
        tags,
        vec![ParaTag::BoxedGrammar(vec![
            SimpleTag::Emph("pl.".to_string()),
            SimpleTag::Plain(" of foo".to_string()),
        ])]
    );
    let tags = para_of("[<i>See</i> bar]");
    assert_eq!(
        tags,
        vec![ParaTag::Boxed(vec![
            SimpleTag::Emph("See".to_string()),
            SimpleTag::Plain(" bar".to_string()),
        ])]
    );
}

#[test]
fn only_the_first_tag_classifies() {
    let tags = para_of("[<i>See</i> <i>pl.</i>]");
    assert!(matches!(tags[0], ParaTag::Boxed(_)));
    let tags = para_of("[<b>pl.</b> of foo]");
    assert!(matches!(tags[0], ParaTag::Boxed(_)));
    let tags = para_of("[<i>v. t.</i>]");
    assert!(matches!(tags[0], ParaTag::BoxedGrammar(_)));
}

#[test]
fn classify_boxed_by_first_tag() {
    let gram = vec![SimpleTag::Emph("superl. of".to_string()), SimpleTag::Plain("x".to_string())];
    assert_eq!(classify_boxed(gram.clone()), ParaTag::BoxedGrammar(gram));
    let plain = vec![SimpleTag::Plain("pl.".to_string())];
    assert_eq!(classify_boxed(plain.clone()), ParaTag::Boxed(plain));
    let other = vec![SimpleTag::Emph("plural".to_string())];
    assert_eq!(classify_boxed(other.clone()), ParaTag::Boxed(other));
    assert_eq!(classify_boxed(Vec::new()), ParaTag::Boxed(Vec::new()));
}

#[test]
fn gram_markers() {
    for m in [
        "compar.", "Compar.", "dat.", "imp.", "inf.", "nom.", "obj.", "obs.", "Obs.", "p. p.",
        "p. pr.", "pl.", "poss.", "Poss.", "pres.", "pret.", "sing.", "Sing.", "superl.",
        "Superl.", "v. i.", "v. t.", "vb. n.",
    ] {
        assert!(is_gram_marker(m), "{}", m);
        assert!(is_gram_marker(&format!("{} and more", m)), "{}", m);
    }
    for m in ["", "pl", "n.", "adv.", "See", " pl.", "Pl.", "v.", "p.p."] {
        assert!(!is_gram_marker(m), "{}", m);
    }
}

#[test]
fn every_inline_tag() {
    let tags = para_of(
        "a<i>b</i><b>c</b><a href=\"#MBP_TOC_FF\">d</a><small><b>e</b></small><br>\n[f][]<sub>g</sub><sup>h</sup>",
    );
    assert_eq!(
        tags,
        vec![ParaTag::Simple(vec![
            SimpleTag::Plain("a".to_string()),
            SimpleTag::Emph("b".to_string()),
            SimpleTag::Bold("c".to_string()),
            SimpleTag::WordRef(255, "d".to_string()),
            SimpleTag::SmallB("e".to_string()),
            SimpleTag::BreakTag,
            SimpleTag::BoxedPlain("f".to_string()),
            SimpleTag::BoxedPlain(String::new()),
            SimpleTag::Sub("g".to_string()),
            SimpleTag::Sup("h".to_string()),
        ])]
    );
}

#[test]
fn paragraph_level_tags() {
    let tags = para_of("<strong>Word</strong> text [<i>obs.</i>] more");
    assert_eq!(
        tags,
        vec![
            ParaTag::Strong("Word".to_string()),
            ParaTag::Simple(vec![SimpleTag::Plain(" text ".to_string())]),
            ParaTag::BoxedGrammar(vec![SimpleTag::Emph("obs.".to_string())]),
            ParaTag::Simple(vec![SimpleTag::Plain(" more".to_string())]),
        ]
    );
}

#[test]
fn plain_brackets_stay_inline() {
    // a bracketed run of text alone is an inline tag, not an annotation
    let tags = para_of("[abc]");
    assert_eq!(tags, vec![ParaTag::Simple(vec![SimpleTag::BoxedPlain("abc".to_string())])]);
}

#[test]
fn emphasis_may_be_empty_or_hold_tags() {
    let tags = para_of("<i></i><i>a<b>c</b></i>");
    assert_eq!(
        tags,
        vec![ParaTag::Simple(vec![
            SimpleTag::Emph(String::new()),
            SimpleTag::Emph("a<b>c</b>".to_string()),
        ])]
    );
}

#[test]
fn blocks() {
    let tree = parsed(
        "<p>a</p>\n\n<pre> raw <b>text\n</pre><blockquote>\n<p>quoted [x] <i>y</i><br>\nz</p>\n\u{2015}<i>Author</i></blockquote>\n<blockquote>\n<p>q</p>\n</blockquote>\n",
    );
    assert_eq!(
        tree.tags,
        vec![
            EntryTag::Para(vec![ParaTag::Simple(vec![SimpleTag::Plain("a".to_string())])]),
            EntryTag::LineBreak,
            EntryTag::Pre(" raw <b>text\n".to_string()),
            EntryTag::Blockquote(
                vec![
                    SimpleTag::Plain("quoted [x] ".to_string()),
                    SimpleTag::Emph("y".to_string()),
                    SimpleTag::BreakTag,
                    SimpleTag::Plain("z".to_string()),
                ],
                Some("Author".to_string()),
            ),
            EntryTag::Blockquote(vec![SimpleTag::Plain("q".to_string())], None),
        ]
    );
}

#[test]
fn headword_may_be_empty() {
    let text = "<div id=\"MBP_TOC_0\" data-ascii=\"\">\n\n</div>\n";
    let tree = parse_entry(text).unwrap();
    assert_eq!(tree.tocid, 0);
    assert_eq!(tree.word, "");
    assert_eq!(tree.tags, vec![EntryTag::LineBreak]);
    assert_eq!(tree.to_string(), text);
}

#[test]
fn identifiers_are_written_in_upper_case() {
    let text = "<div id=\"MBP_TOC_00ab\" data-ascii=\"w\">\n<p><a href=\"#MBP_TOC_0c\">x</a></p>\n</div>\n";
    let tree = parse_entry(text).unwrap();
    assert_eq!(tree.tocid, 0xab);
    assert_eq!(
        tree.tags,
        vec![EntryTag::Para(vec![ParaTag::Simple(vec![SimpleTag::WordRef(12, "x".to_string())])])]
    );
    assert_eq!(
        tree.to_string(),
        "<div id=\"MBP_TOC_AB\" data-ascii=\"w\">\n<p><a href=\"#MBP_TOC_C\">x</a></p>\n</div>\n"
    );
}

#[test]
fn largest_identifier() {
    let text = "<div id=\"MBP_TOC_FFFFFFFF\" data-ascii=\"w\">\n<p>x</p>\n</div>\n";
    let tree = parse_entry(text).unwrap();
    assert_eq!(tree.tocid, u32::MAX);
    assert_eq!(tree.to_string(), text);
}

#[test]
fn malformed_entries_come_back_whole() {
    for text in [
        "",
        "<div id=\"MBP_TOC_1\" data-ascii=\"w\">\n</div>\n",
        "<div id=\"MBP_TOC_1\" data-ascii=\"w\">\n<p></p>\n</div>\n",
        "<div id=\"MBP_TOC_1\" data-ascii=\"w\">\n<p>a</p></div>\n",
        "<div id=\"MBP_TOC_1\" data-ascii=\"w\">\n<p>a</p>\n</div>",
        "<div id=\"MBP_TOC_1\" data-ascii=\"w\">\n<p>a</p>\n</div>\nmore",
        "<div id=\"MBP_TOC_\" data-ascii=\"w\">\n<p>a</p>\n</div>\n",
        "<div id=\"MBP_TOC_XY\" data-ascii=\"w\">\n<p>a</p>\n</div>\n",
        "<div id=\"MBP_TOC_100000000\" data-ascii=\"w\">\n<p>a</p>\n</div>\n",
        "<div id=\"MBP_TOC_1\" data-ascii=\"w\">\n<p>a<i>b</p>\n</div>\n",
        "<div id=\"MBP_TOC_1\" data-ascii=\"w\">\n<p>a<u>b</u></p>\n</div>\n",
        "<div id=\"MBP_TOC_1\" data-ascii=\"w\">\n<p>[<sub>b</sub>]</p>\n</div>\n",
        "<div id=\"MBP_TOC_1\" data-ascii=\"w\">\n<p>[<strong>b</strong>]</p>\n</div>\n",
        "<div id=\"MBP_TOC_1\" data-ascii=\"w\">\n<p>a > b</p>\n</div>\n",
        "<div id=\"MBP_TOC_1\" data-ascii=\"w\">\n<blockquote>\n<p><b>a</b></p>\n</blockquote>\n</div>\n",
        "<div id=\"MBP_TOC_1\" data-ascii=\"w\">\n<pre>a</div>\n",
        " <div id=\"MBP_TOC_1\" data-ascii=\"w\">\n<p>a</p>\n</div>\n",
    ] {
        assert_eq!(parse_entry(text), Err(text.to_string()), "{:?}", text);
    }
}

#[test]
fn toc_link_reads_target_and_text() {
    let buf = chars("xx<a href=\"#MBP_TOC_1f\">Word</a>yy");
    assert_eq!(toc_link(&buf, 2), Some(((31, "Word".to_string()), 32)));
    assert_eq!(toc_link(&buf, 0), None);
    assert_eq!(toc_link(&buf, 3), None);
    assert_eq!(toc_link(&buf, 100), None);
    let buf = chars("<a href=\"#MBP_TOC_1f\"></a>");
    assert_eq!(toc_link(&buf, 0), None);
    let buf = chars("<a href=\"#MBP_TOC_1f\">Word</a");
    assert_eq!(toc_link(&buf, 0), None);
}

#[test]
fn markup_of_each_tag() {
    assert_eq!(SimpleTag::Bold("x".to_string()).to_string(), "<b>x</b>");
    assert_eq!(SimpleTag::BoxedPlain("x".to_string()).to_string(), "[x]");
    assert_eq!(SimpleTag::BreakTag.to_string(), "<br>\n");
    assert_eq!(SimpleTag::Emph("x".to_string()).to_string(), "<i>x</i>");
    assert_eq!(SimpleTag::Plain("x".to_string()).to_string(), "x");
    assert_eq!(SimpleTag::SmallB("x".to_string()).to_string(), "<small><b>x</b></small>");
    assert_eq!(SimpleTag::Sub("x".to_string()).to_string(), "<sub>x</sub>");
    assert_eq!(SimpleTag::Sup("x".to_string()).to_string(), "<sup>x</sup>");
    assert_eq!(
        SimpleTag::WordRef(0xbeef, "x".to_string()).to_string(),
        "<a href=\"#MBP_TOC_BEEF\">x</a>"
    );
    assert_eq!(SimpleTag::WordRef(0, "x".to_string()).to_string(), "<a href=\"#MBP_TOC_0\">x</a>");
    assert_eq!(
        SimpleTag::WordRef(u32::MAX, "x".to_string()).to_string(),
        "<a href=\"#MBP_TOC_FFFFFFFF\">x</a>"
    );
    assert_eq!(SimpleTag::WordRef(16, "x".to_string()).to_string(), "<a href=\"#MBP_TOC_10\">x</a>");
    let inner = vec![SimpleTag::Emph("a".to_string()), SimpleTag::Plain("b".to_string())];
    assert_eq!(ParaTag::Strong("x".to_string()).to_string(), "<strong>x</strong>");
    assert_eq!(ParaTag::Boxed(inner.clone()).to_string(), "[<i>a</i>b]");
    assert_eq!(ParaTag::BoxedGrammar(inner.clone()).to_string(), "[<i>a</i>b]");
    assert_eq!(ParaTag::Simple(inner.clone()).to_string(), "<i>a</i>b");
    assert_eq!(
        EntryTag::Blockquote(inner.clone(), Some("W.".to_string())).to_string(),
        "<blockquote>\n<p><i>a</i>b</p>\n\u{2015}<i>W.</i></blockquote>\n"
    );
    assert_eq!(
        EntryTag::Blockquote(inner.clone(), None).to_string(),
        "<blockquote>\n<p><i>a</i>b</p>\n</blockquote>\n"
    );
    assert_eq!(
        EntryTag::Para(vec![ParaTag::Simple(inner)]).to_string(),
        "<p><i>a</i>b</p>\n"
    );
    assert_eq!(EntryTag::Pre("x".to_string()).to_string(), "<pre>x</pre>");
    assert_eq!(EntryTag::LineBreak.to_string(), "\n");
}

#[test]
fn a_changed_tree_is_written_as_changed() {
    let text = "<div id=\"MBP_TOC_7\" data-ascii=\"w\">\n<p>[<i>pl.</i> <a href=\"#MBP_TOC_9\">x</a>]</p>\n</div>\n";
    let mut tree = parse_entry(text).unwrap();
    if let EntryTag::Para(ptags) = &mut tree.tags[0] {
        if let ParaTag::BoxedGrammar(tags) = &mut ptags[0] {
            tags[2] = SimpleTag::SmallB("x".to_string());
        } else {
            panic!("not a grammatical annotation");
        }
    }
    assert_eq!(
        tree.to_string(),
        "<div id=\"MBP_TOC_7\" data-ascii=\"w\">\n<p>[<i>pl.</i> <small><b>x</b></small>]</p>\n</div>\n"
    );
}

#[test]
fn fmt_appends() {
    let mut out = String::from(">>");
    SimpleTag::Bold("x".to_string()).fmt(&mut out);
    ParaTag::Strong("y".to_string()).fmt(&mut out);
    EntryTag::LineBreak.fmt(&mut out);
    TaggedEntry { tocid: 10, tags: vec![EntryTag::LineBreak], word: "w".to_string() }.fmt(&mut out);
    assert_eq!(
        out,
        ">><b>x</b><strong>y</strong>\n<div id=\"MBP_TOC_A\" data-ascii=\"w\">\n\n</div>\n"
    );
}

#[test]
fn raw_entry_markup() {
    let entry = RawEntry {
        word: "Zöll´ner’s Lines".to_string(),
        tocid: 0x2f,
        body: " body".to_string(),
        extras: "<p>more</p>".to_string(),
    };
    let mut out = String::from("x");
    write_html(&mut out, &entry);
    assert_eq!(
        out,
        "x<div id=\"MBP_TOC_2F\" data-ascii=\"Zollner's Lines\">\n<p><strong>Zöll´ner’s Lines</strong> body</p><p>more</p></div>\n"
    );
}
