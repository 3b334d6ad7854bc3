//! Word segmentation and style-segment construction.

use docx_editor::props::{TextNode, TextProperties, TextSize, TextWeight};
use docx_editor::segmenter::get_words;

fn plain_run(text: &str) -> TextNode {
    TextNode { properties: TextProperties::default(), content: text.to_string() }
}

fn bold_run(text: &str) -> TextNode {
    let mut p = TextProperties::default();
    p.weight = TextWeight::Bold;
    TextNode { properties: p, content: text.to_string() }
}

fn word_text(w: &docx_editor::word::Word) -> String {
    w.word.concat()
}

#[test]
fn splits_on_whitespace() {
    let words = get_words(&vec![plain_run("ab cd")]);
    assert_eq!(words.len(), 2);
    assert_eq!(word_text(&words[0]), "ab");
    assert_eq!(word_text(&words[1]), "cd");
}

#[test]
fn consecutive_separators_yield_no_empty_words() {
    let words = get_words(&vec![plain_run("ab  cd")]);
    assert_eq!(words.len(), 2);
    assert_eq!(word_text(&words[0]), "ab");
    assert_eq!(word_text(&words[1]), "cd");
}

#[test]
fn surrounding_whitespace_yields_no_empty_words() {
    let words = get_words(&vec![plain_run("  ab ")]);
    assert_eq!(words.len(), 1);
    assert_eq!(word_text(&words[0]), "ab");
    let blank_only = get_words(&vec![plain_run("   ")]);
    assert_eq!(blank_only.len(), 0);
}

#[test]
fn empty_input_gives_no_words() {
    let words = get_words(&Vec::new());
    assert_eq!(words.len(), 0);
}

#[test]
fn word_spans_runs_without_whitespace() {
    let words = get_words(&vec![plain_run("ab"), plain_run("cd e")]);
    assert_eq!(words.len(), 2);
    assert_eq!(word_text(&words[0]), "abcd");
    assert_eq!(word_text(&words[1]), "e");
}

#[test]
fn equal_style_graphemes_share_one_segment() {
    let words = get_words(&vec![plain_run("abc")]);
    assert_eq!(words.len(), 1);
    assert_eq!(words[0].glyphs_views.len(), 1);
    assert_eq!(words[0].glyphs_views[0].start, 0);
    assert_eq!(words[0].glyphs_views[0].end, 3);
}

#[test]
fn style_change_opens_new_segment() {
    let words = get_words(&vec![plain_run("ab"), bold_run("cd")]);
    assert_eq!(words.len(), 1);
    assert_eq!(word_text(&words[0]), "abcd");
    assert_eq!(words[0].glyphs_views.len(), 2);
    assert_eq!(words[0].glyphs_views[0].start, 0);
    assert_eq!(words[0].glyphs_views[0].end, 2);
    assert_eq!(words[0].glyphs_views[1].start, 2);
    assert_eq!(words[0].glyphs_views[1].end, 4);
    assert_eq!(words[0].glyphs_views[0].properties.weight, TextWeight::Regular);
    assert_eq!(words[0].glyphs_views[1].properties.weight, TextWeight::Bold);
}

#[test]
fn multibyte_graphemes_count_as_single_units() {
    let words = get_words(&vec![plain_run("\u{e9}a \u{1F600}")]);
    assert_eq!(words.len(), 2);
    assert_eq!(words[0].word.len(), 2);
    assert_eq!(words[1].word.len(), 1);
    assert_eq!(words[0].glyphs_views[0].end, 2);
}

#[test]
fn segment_coverage_after_segmentation() {
    // the union of segment ranges is exactly [0, grapheme count)
    let words = get_words(&vec![plain_run("ab"), bold_run("cd ef"), plain_run("g")]);
    for w in &words {
        if w.word.is_empty() {
            assert!(w.glyphs_views.is_empty());
            continue;
        }
        assert_eq!(w.glyphs_views.first().unwrap().start, 0);
        assert_eq!(w.glyphs_views.last().unwrap().end, w.word.len());
        for pair in w.glyphs_views.windows(2) {
            assert_eq!(pair[0].end, pair[1].start);
            assert!(pair[0].start < pair[0].end);
        }
    }
}

#[test]
fn size_difference_opens_new_segment() {
    let mut sized = TextProperties::default();
    sized.size = Some(TextSize(48));
    let words = get_words(&vec![
        plain_run("x"),
        TextNode { properties: sized, content: "y".to_string() },
    ]);
    assert_eq!(words.len(), 1);
    assert_eq!(words[0].glyphs_views.len(), 2);
}
