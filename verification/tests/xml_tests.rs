//! The element tree, its getters, the serialiser, and the small parsers.

use docx_editor::props::{
    Color, FormProt, GridType, Justification, LineRule, NumType, PageType, TextDirection,
};
use docx_editor::strutil::{parse_u64, str_eq, u64_to_string};
use docx_editor::xml::{Element, Node, WordXMLDocument};

#[test]
fn builders_grow_the_tree() {
    let e = Element::new("w:p")
        .with_attr("w:id", "7".to_string())
        .with_element(Element::new("w:r").with_text("hi"))
        .with_text("tail");
    assert_eq!(e.name, "w:p");
    assert_eq!(e.attrs.len(), 1);
    assert_eq!(e.inners.len(), 2);
    assert!(e.inners[0].is_element());
    assert!(e.inners[1].is_text());
    assert!(e.inners[0].get_element().is_some());
    assert!(e.inners[1].get_text().is_some());
}

#[test]
fn getters_find_children_and_attrs() {
    let e = Element::new("root")
        .with_element(Element::new("a").with_attr("k", "10".to_string()).with_text("one"))
        .with_element(Element::new("b"))
        .with_element(Element::new("a").with_text("two"));
    assert!(e.has_child("a"));
    assert!(e.has_child("b"));
    assert!(!e.has_child("c"));
    let first = e.get_child("a").unwrap();
    assert_eq!(first.get_texts(), "one");
    assert_eq!(e.get_children("a").len(), 2);
    assert_eq!(first.get_attr("k").unwrap().as_str(), "10");
    assert_eq!(first.get_attr_parsed("k"), Some(10));
    assert_eq!(e.get_childs_attr_parsed("a", "k"), Some(10));
    assert_eq!(e.get_childs_texts("a"), Some("one".to_string()));
    assert_eq!(e.get_childs_texts("c"), None);
}

#[test]
fn get_child_mut_edits_in_place() {
    let mut e = Element::new("root").with_element(Element::new("body"));
    e.get_child_mut("body").unwrap().append_text("x");
    assert_eq!(e.get_child("body").unwrap().get_texts(), "x");
    assert!(e.get_child_mut("missing").is_none());
}

#[test]
fn serialiser_emits_tags_attrs_and_children() {
    let e = Element::new("a")
        .with_attr("x", "1".to_string())
        .with_element(Element::new("b").with_text("t"))
        .with_text("u");
    let mut out = String::new();
    e.write_to(&mut out);
    assert_eq!(out, "<a x=\"1\"><b>t</b>u</a>");
    let doc = WordXMLDocument { header: "<?xml?>".to_string(), root: Element::new("r") };
    let mut out2 = String::new();
    doc.write_to(&mut out2);
    assert_eq!(out2, "<?xml?>\n<r></r>");
}

#[test]
fn serialiser_escapes_attribute_values() {
    let e = Element::new("a").with_attr("x", "q\"w\\e\nr\tt\ry".to_string());
    let mut out = String::new();
    e.write_to(&mut out);
    assert_eq!(out, "<a x=\"q\\\"w\\\\e\\nr\\tt\\ry\"></a>");
    // other control characters are escaped too, single quotes pass
    let nul = Element::new("a").with_attr("x", "a\u{0}b'c\u{7f}".to_string());
    let mut out2 = String::new();
    nul.write_to(&mut out2);
    assert_eq!(out2, "<a x=\"a\\0b'c\\u{7f}\"></a>");
}

#[test]
fn attr_parsing_passes_over_unparseable_values() {
    let e = Element::new("a")
        .with_attr("k", "zz".to_string())
        .with_attr("k", "41".to_string())
        .with_attr("k", "7".to_string());
    assert_eq!(e.get_attr_parsed("k"), Some(41));
    let none = Element::new("a").with_attr("k", "zz".to_string());
    assert_eq!(none.get_attr_parsed("k"), None);
}

#[test]
fn decimal_parsing_accepts_digits_only() {
    assert_eq!(parse_u64("0"), Some(0));
    assert_eq!(parse_u64("120"), Some(120));
    assert_eq!(parse_u64("007"), Some(7));
    assert_eq!(parse_u64(""), None);
    assert_eq!(parse_u64("12a"), None);
    assert_eq!(parse_u64("-3"), None);
    assert_eq!(parse_u64("18446744073709551615"), Some(u64::MAX));
    assert_eq!(parse_u64("18446744073709551616"), None);
}

#[test]
fn decimal_rendering_round_trips() {
    assert_eq!(u64_to_string(0), "0");
    assert_eq!(u64_to_string(9), "9");
    assert_eq!(u64_to_string(120), "120");
    assert_eq!(u64_to_string(u64::MAX), "18446744073709551615");
    assert_eq!(parse_u64(&u64_to_string(98765)), Some(98765));
}

#[test]
fn str_eq_compares_contents() {
    assert!(str_eq("abc", "abc"));
    assert!(!str_eq("abc", "abd"));
    assert!(!str_eq("abc", "ab"));
    assert!(str_eq("", ""));
}

#[test]
fn color_parses_hex_and_renders_back() {
    let c = Color::from_str("FF8000").unwrap();
    assert_eq!((c.r, c.g, c.b, c.a), (255, 128, 0, 255));
    assert_eq!(c.to_xml_val(), "FF8000");
    assert_eq!(Color::from_str("zz"), None);
    assert_eq!(Color::from_str(""), None);
    let low = Color::from_str("ab").unwrap();
    assert_eq!((low.r, low.g, low.b), (0, 0, 0xAB));
    let hex = Color::from_hex(0x11223344);
    assert_eq!((hex.r, hex.g, hex.b, hex.a), (0x11, 0x22, 0x33, 0x44));
}

#[test]
fn enum_attribute_forms() {
    assert_eq!(Justification::from_str("width"), Some(Justification::Width));
    assert_eq!(Justification::from_str("start"), Some(Justification::Start));
    assert_eq!(Justification::from_str("bogus"), None);
    assert_eq!(Justification::Width.xml_name(), "width");
    assert_eq!(NumType::from_str("decimal"), Some(NumType::Decimal));
    assert_eq!(PageType::from_str("nextPage"), Some(PageType::NextPage));
    assert_eq!(LineRule::from_str("auto"), Some(LineRule::Auto));
    assert_eq!(GridType::from_str("default"), Some(GridType::Default));
    assert_eq!(FormProt::from_str("true"), Some(FormProt { val: true }));
    assert_eq!(FormProt::from_str("false"), Some(FormProt { val: false }));
    // the read-side mapping of text directions mirrors the emitting side
    // crosswise for the top-to-bottom forms
    assert_eq!(
        TextDirection::from_str("lrTb"),
        Some(TextDirection::LeftToRightBottomToTop)
    );
    assert_eq!(TextDirection::LeftToRightTopToBottom.xml_name(), "lrTb");
}

#[test]
fn grapheme_packing_uses_first_four_bytes() {
    assert_eq!(docx_editor::docx::grapheme_to_i32("A"), 65);
    // U+00E9 encodes as C3 A9: little-endian packing gives 0xA9C3
    assert_eq!(docx_editor::docx::grapheme_to_i32("\u{e9}"), 0xA9C3);
    assert_eq!(docx_editor::docx::grapheme_to_i32(""), 0);
}

#[test]
fn tree_dump_indents_children_by_depth() {
    let tree = Element::new("a")
        .with_attr("x", "1".to_string())
        .with_element(Element::new("b").with_text("t").with_element(Element::new("d")))
        .with_element(Element::new("c"));
    let mut out = String::new();
    docx_editor::xml::write_tree(&tree, &mut out);
    assert_eq!(out, "<a> [x = 1] \n<b> <<t>> \n---<d>\n<c>\n");
}
