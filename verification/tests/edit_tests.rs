//! Cursor targets and the edit engine, at the document level.

use docx_editor::cursor::{Cursor, CursorPos};
use docx_editor::document::{DocumentDraw, Paragraph};
use docx_editor::edit::{get_cursor_target, CursorTargetIdx};
use docx_editor::lines::Line;
use docx_editor::props::{ParagraphProperties, TextNode, TextProperties};
use docx_editor::segmenter::get_words;
use docx_editor::word::Word;

fn plain_run(text: &str) -> TextNode {
    TextNode { properties: TextProperties::default(), content: text.to_string() }
}

fn single_line(words: &[Word]) -> Line {
    Line {
        height: 10,
        min_width: 0,
        width_with_spacing: 0,
        last_scale: 0,
        range_start: 0,
        range_end: words.len(),
    }
}

/// A one-paragraph document whose single line spans every word.
fn doc_of(text: &str, char_idx: usize) -> DocumentDraw {
    let words = get_words(&vec![plain_run(text)]);
    let line = single_line(&words);
    let mut doc = DocumentDraw::new_empty();
    doc.paragraphs.push(Paragraph {
        properties: ParagraphProperties::default(),
        words,
        lines: vec![line],
    });
    doc.cursor = Cursor::Normal(CursorPos { par_idx: 0, line_idx: 0, char_idx });
    doc
}

fn word_texts(doc: &DocumentDraw) -> Vec<String> {
    doc.paragraphs[0].words.iter().map(|w| w.word.concat()).collect()
}

#[test]
fn locator_walks_words_gaps_and_line_end() {
    let words = get_words(&vec![plain_run("ab cd")]);
    // units: a b gap c d end
    assert!(matches!(
        get_cursor_target(&words, 0, 2, 0),
        CursorTargetIdx::WordTarget { word: 0, idx: 0 }
    ));
    assert!(matches!(
        get_cursor_target(&words, 0, 2, 1),
        CursorTargetIdx::WordTarget { word: 0, idx: 1 }
    ));
    assert!(matches!(
        get_cursor_target(&words, 0, 2, 2),
        CursorTargetIdx::WhiteSpace { prev: 0, next: 1 }
    ));
    assert!(matches!(
        get_cursor_target(&words, 0, 2, 3),
        CursorTargetIdx::WordTarget { word: 1, idx: 0 }
    ));
    assert!(matches!(
        get_cursor_target(&words, 0, 2, 5),
        CursorTargetIdx::LineEnd { end: 1 }
    ));
    assert!(matches!(get_cursor_target(&words, 0, 2, 6), CursorTargetIdx::Nothing));
    let empty: Vec<Word> = Vec::new();
    assert!(matches!(get_cursor_target(&empty, 0, 0, 0), CursorTargetIdx::Nothing));
}

#[test]
fn insert_at_gap_prepends_to_next_word() {
    // cursor on the gap of "ab cd": the text lands at the head of "cd"
    let mut doc = doc_of("ab cd", 2);
    let pairs = doc.insert("X".to_string());
    assert_eq!(word_texts(&doc), vec!["ab".to_string(), "Xcd".to_string()]);
    assert_eq!(pairs, vec![(0, 1)]);
}

#[test]
fn insert_inside_word_lands_after_cursor_grapheme() {
    let mut doc = doc_of("ab cd", 0);
    doc.insert("X".to_string());
    assert_eq!(word_texts(&doc), vec!["aXb".to_string(), "cd".to_string()]);
}

#[test]
fn insert_after_second_grapheme() {
    let mut doc = doc_of("abc", 1);
    doc.insert("X".to_string());
    assert_eq!(word_texts(&doc), vec!["abXc".to_string()]);
}

#[test]
fn insert_at_line_end_appends_to_last_word() {
    let mut doc = doc_of("ab cd", 5);
    doc.insert("X".to_string());
    assert_eq!(word_texts(&doc), vec!["ab".to_string(), "cdX".to_string()]);
}

#[test]
fn remove_single_grapheme_word_deletes_the_word() {
    // a word of one grapheme disappears whole
    let mut doc = doc_of("a bc", 0);
    let pairs = doc.remove();
    assert_eq!(word_texts(&doc), vec!["bc".to_string()]);
    assert_eq!(pairs.len(), 0);
}

#[test]
fn remove_inside_word_deletes_the_grapheme() {
    let mut doc = doc_of("abc", 1);
    doc.remove();
    assert_eq!(word_texts(&doc), vec!["ac".to_string()]);
}

#[test]
fn remove_at_gap_merges_words() {
    let mut doc = doc_of("ab cd", 2);
    doc.remove();
    assert_eq!(word_texts(&doc), vec!["abcd".to_string()]);
    assert_eq!(doc.paragraphs[0].words[0].glyphs_views.len(), 1);
}

#[test]
fn remove_at_line_end_deletes_last_grapheme() {
    let mut doc = doc_of("ab cd", 5);
    doc.remove();
    assert_eq!(word_texts(&doc), vec!["ab".to_string(), "c".to_string()]);
}

#[test]
fn insert_then_remove_restores_word() {
    // the round trip restores the text and the segment layout
    let before = doc_of("abc", 1);
    let mut doc = doc_of("abc", 1);
    doc.insert("X".to_string());
    assert_eq!(word_texts(&doc), vec!["abXc".to_string()]);
    // the inserted grapheme sits one step right of the cursor
    doc.cursor = Cursor::Normal(CursorPos { par_idx: 0, line_idx: 0, char_idx: 2 });
    doc.remove();
    assert_eq!(word_texts(&doc), word_texts(&before));
    let ow = &before.paragraphs[0].words[0];
    let nw = &doc.paragraphs[0].words[0];
    assert_eq!(nw.glyphs_views.len(), ow.glyphs_views.len());
    for (a, b) in nw.glyphs_views.iter().zip(ow.glyphs_views.iter()) {
        assert_eq!(a.start, b.start);
        assert_eq!(a.end, b.end);
        assert!(a.properties.props_eq(&b.properties));
    }
}

#[test]
fn insert_space_splits_word_and_segments() {
    let mut doc = doc_of("abcd", 1);
    let pairs = doc.insert_space();
    assert_eq!(word_texts(&doc), vec!["ab".to_string(), "cd".to_string()]);
    assert_eq!(pairs, vec![(0, 0), (0, 1)]);
    let p = &doc.paragraphs[0];
    assert_eq!(p.words[0].glyphs_views[0].start, 0);
    assert_eq!(p.words[0].glyphs_views[0].end, 2);
    assert_eq!(p.words[1].glyphs_views[0].start, 0);
    assert_eq!(p.words[1].glyphs_views[0].end, 2);
}

#[test]
fn insert_space_on_gap_is_a_no_op() {
    let mut doc = doc_of("ab cd", 2);
    let pairs = doc.insert_space();
    assert_eq!(word_texts(&doc), vec!["ab".to_string(), "cd".to_string()]);
    assert_eq!(pairs.len(), 0);
}

#[test]
fn out_of_bounds_cursor_edits_do_nothing() {
    let mut doc = doc_of("ab", 0);
    doc.cursor = Cursor::Normal(CursorPos { par_idx: 5, line_idx: 0, char_idx: 0 });
    assert_eq!(doc.insert("X".to_string()).len(), 0);
    assert_eq!(doc.remove().len(), 0);
    assert_eq!(doc.insert_space().len(), 0);
    assert_eq!(word_texts(&doc), vec!["ab".to_string()]);
}

#[test]
fn change_par_clamps_to_document() {
    let mut doc = doc_of("ab", 0);
    doc.change_par(5);
    assert_eq!(doc.get_cursor_pos().par_idx, 0);
    doc.change_par(-5);
    assert_eq!(doc.get_cursor_pos().par_idx, 0);
}

#[test]
fn change_char_steps_and_wraps() {
    let mut doc = doc_of("ab cd", 0);
    doc.change_char(1);
    assert_eq!(doc.get_cursor_pos().char_idx, 1);
    doc.change_char(3);
    assert_eq!(doc.get_cursor_pos().char_idx, 4);
    // stepping past the line's last unit wraps to a line start
    doc.change_char(10);
    assert_eq!(doc.get_cursor_pos().char_idx, 0);
    // stepping below zero snaps to the line's unit length
    doc.change_char(-1);
    assert_eq!(doc.get_cursor_pos().char_idx, 6);
}
