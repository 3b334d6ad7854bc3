//! Line breaking, justification and pagination.

use docx_editor::geometry::{Point, Size};
use docx_editor::lines::{get_line_vertical_metrics, get_lines, get_words_sizes, update_line, Line, VerticalSpacing};
use docx_editor::primitives::{PlainTextProperties, Primitive, PrimitiveProperties};
use docx_editor::props::{Justification, TextProperties};
use docx_editor::word::{GlyphsView, Word};

fn sized_word(text: &str, width: i64, height: i64, scale: i64) -> Word {
    let graphemes: Vec<String> = text.chars().map(|c| c.to_string()).collect();
    let n = graphemes.len();
    Word {
        word: graphemes,
        glyphs_views: vec![GlyphsView {
            start: 0,
            end: n,
            properties: TextProperties::default(),
            primitive: Primitive {
                prop: PrimitiveProperties::PlainText(PlainTextProperties {
                    left_top: Point { x: 0, y: 0 },
                    content: text.to_string(),
                    color: docx_editor::props::Color { r: 0, g: 0, b: 0, a: 255 },
                    size: Size { width, height },
                    scale,
                }),
            },
        }],
    }
}

#[test]
fn word_sizes_sum_segments() {
    let w = sized_word("abc", 40, 12, 7);
    let (width, height, scale) = get_words_sizes(&w);
    assert_eq!(width, 40);
    assert_eq!(height, 12);
    assert_eq!(scale, 7);
}

#[test]
fn width_justification_distributes_slack() {
    // natural widths [40, 30, 20] on a 120-unit line: min_width 90,
    // computed absolute spacing (120 - 90) / 3 = 10
    let words = vec![
        sized_word("aa", 40, 10, 0),
        sized_word("bb", 30, 10, 0),
        sized_word("cc", 20, 10, 0),
    ];
    let lines = get_lines(&words, 120, 1);
    assert_eq!(lines.len(), 1);
    let line = lines[0];
    assert_eq!(line.range_start, 0);
    assert_eq!(line.range_end, 3);
    assert_eq!(line.min_width, 90);
    // width-with-spacing adds the default spacing scaled by each word's
    // scale (zero here)
    assert_eq!(line.width_with_spacing, 90);
    let (offset, spacing) = get_line_vertical_metrics(Some(Justification::Width), 120, &line, 1);
    assert_eq!(offset, 0);
    assert_eq!(spacing, VerticalSpacing::Absolute(10));
    // the distributed slack fills the content width exactly here
    assert_eq!(line.min_width + 3 * 10, 120);
}

#[test]
fn greedy_breaking_partitions_words() {
    let words = vec![
        sized_word("a", 50, 10, 0),
        sized_word("b", 50, 10, 0),
        sized_word("c", 50, 10, 0),
        sized_word("d", 50, 10, 0),
    ];
    let lines = get_lines(&words, 110, 1);
    assert!(lines.len() >= 2);
    assert_eq!(lines[0].range_start, 0);
    assert_eq!(lines.last().unwrap().range_end, 4);
    for pair in lines.windows(2) {
        assert_eq!(pair[0].range_end, pair[1].range_start);
    }
}

#[test]
fn oversized_first_word_starts_the_first_line() {
    // no line is ever empty: the overflowing first word stands alone on
    // the first line
    let words = vec![sized_word("wide", 500, 10, 0), sized_word("b", 50, 10, 0)];
    let lines = get_lines(&words, 100, 1);
    assert_eq!(lines.len(), 2);
    assert_eq!(lines[0].range_start, 0);
    assert_eq!(lines[0].range_end, 1);
    assert_eq!(lines[1].range_start, 1);
    assert_eq!(lines[1].range_end, 2);
}

#[test]
fn empty_word_list_yields_one_empty_line() {
    let words: Vec<Word> = Vec::new();
    let lines = get_lines(&words, 100, 1);
    assert_eq!(lines.len(), 1);
    assert_eq!(lines[0].range_start, 0);
    assert_eq!(lines[0].range_end, 0);
}

#[test]
fn spacing_scales_with_word_scale_except_after_the_last() {
    let words = vec![sized_word("a", 40, 10, 3), sized_word("b", 30, 10, 5)];
    let lines = get_lines(&words, 1000, 2);
    assert_eq!(lines.len(), 1);
    // 40, then the spacing after the first word (2*3), then 30 — and no
    // spacing after the final word
    assert_eq!(lines[0].width_with_spacing, 76);
    assert_eq!(lines[0].last_scale, 5);
}

#[test]
fn single_word_line_has_no_spacing() {
    let words = vec![sized_word("a", 10, 4, 3)];
    let lines = get_lines(&words, 100, 1);
    assert_eq!(lines[0].width_with_spacing, 10);
}

#[test]
fn line_height_is_tallest_word() {
    let words = vec![sized_word("a", 10, 5, 0), sized_word("b", 10, 25, 0)];
    let lines = get_lines(&words, 100, 1);
    assert_eq!(lines.len(), 1);
    assert_eq!(lines[0].height, 25);
}

#[test]
fn center_and_end_offsets() {
    let words = vec![sized_word("a", 40, 10, 0)];
    let lines = get_lines(&words, 100, 1);
    let line = lines[0];
    let (center, sp) = get_line_vertical_metrics(Some(Justification::Center), 100, &line, 1);
    assert_eq!(center, (100 - line.width_with_spacing) / 2);
    assert_eq!(sp, VerticalSpacing::Relative(1));
    let (end, _) = get_line_vertical_metrics(Some(Justification::End), 100, &line, 1);
    assert_eq!(end, 100 - line.width_with_spacing);
    let (start, _) = get_line_vertical_metrics(Some(Justification::Start), 100, &line, 1);
    assert_eq!(start, 0);
    let (default_start, _) = get_line_vertical_metrics(None, 100, &line, 1);
    assert_eq!(default_start, 0);
}

#[test]
fn baseline_correction_uses_the_zoom_factor() {
    // at 100% zoom a height difference of 6 must offset the shorter
    // word by exactly 6, not 600
    let mut words = vec![sized_word("ab", 20, 12, 100), sized_word("c", 10, 6, 100)];
    let line = Line {
        height: 12,
        min_width: 30,
        width_with_spacing: 130,
        last_scale: 100,
        range_start: 0,
        range_end: 2,
    };
    update_line(&mut words, &line, Point { x: 0, y: 0 }, 100, 0, VerticalSpacing::Relative(1));
    let y_of = |w: &Word| match &w.glyphs_views[0].primitive.prop {
        PrimitiveProperties::PlainText(pt) => pt.left_top.y,
        _ => panic!("expected text"),
    };
    assert_eq!(y_of(&words[0]), 0);
    assert_eq!(y_of(&words[1]), 6);
    // at 50% zoom the same difference gives 3
    let mut words2 = vec![sized_word("ab", 20, 12, 100), sized_word("c", 10, 6, 100)];
    update_line(&mut words2, &line, Point { x: 0, y: 0 }, 50, 0, VerticalSpacing::Relative(1));
    assert_eq!(y_of(&words2[1]), 3);
}
