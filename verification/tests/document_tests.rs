//! Reading a document tree, laying it out, paginating, and saving.

use docx_editor::docx::{docx_from_xml, parse_sectr_properties, DocxNode, FontTable};
use docx_editor::document::{DocumentDraw, Paragraph};
use docx_editor::geometry::Size;
use docx_editor::props::{ParagraphProperties, TextProperties};
use docx_editor::save::paragraph_runs;
use docx_editor::segmenter::get_words;
use docx_editor::xml::{Element, WordXMLDocument};

fn sect_pr() -> Element {
    Element::new("w:sectPr")
        .with_element(
            Element::new("w:pgSz")
                .with_attr("w:w", "4000".to_string())
                .with_attr("w:h", "6000".to_string()),
        )
        .with_element(
            Element::new("w:pgMar")
                .with_attr("w:top", "100".to_string())
                .with_attr("w:right", "100".to_string())
                .with_attr("w:bottom", "100".to_string())
                .with_attr("w:left", "100".to_string())
                .with_attr("w:header", "50".to_string())
                .with_attr("w:footer", "50".to_string())
                .with_attr("w:gutter", "0".to_string()),
        )
}

fn tiny_document_xml() -> WordXMLDocument {
    let run = Element::new("w:r")
        .with_element(Element::new("w:rPr"))
        .with_element(Element::new("w:t").with_text("hello verified world"));
    let par = Element::new("w:p").with_element(run);
    let body = Element::new("w:body").with_element(par).with_element(sect_pr());
    WordXMLDocument {
        header: "<?xml version=\"1.0\"?>".to_string(),
        root: Element::new("w:document").with_element(body),
    }
}

fn fonts_xml() -> WordXMLDocument {
    WordXMLDocument {
        header: "<?xml version=\"1.0\"?>".to_string(),
        root: Element::new("w:fonts")
            .with_element(Element::new("w:font").with_attr("w:name", "Serif".to_string())),
    }
}

#[test]
fn section_properties_parse_lengths_in_tenths() {
    let node = parse_sectr_properties(&sect_pr()).unwrap();
    match node {
        DocxNode::SectrOfProperties { page_size, page_margin, .. } => {
            assert_eq!(page_size.width, 400);
            assert_eq!(page_size.height, 600);
            assert_eq!(page_margin.top, 10);
            assert_eq!(page_margin.header, 5);
        },
        _ => panic!("expected section properties"),
    }
}

#[test]
fn section_properties_need_size_and_margins() {
    let bare = Element::new("w:sectPr");
    assert!(matches!(
        parse_sectr_properties(&bare),
        Err(docx_editor::docx::DocxError::MissingPageSize)
    ));
    let size_only = Element::new("w:sectPr").with_element(
        Element::new("w:pgSz")
            .with_attr("w:w", "4000".to_string())
            .with_attr("w:h", "6000".to_string()),
    );
    assert!(matches!(
        parse_sectr_properties(&size_only),
        Err(docx_editor::docx::DocxError::MissingPageMargin)
    ));
}

#[test]
fn document_reader_reports_each_failure() {
    let fonts = fonts_xml();
    let bad_root = WordXMLDocument {
        header: String::new(),
        root: Element::new("w:wrong"),
    };
    assert!(matches!(
        docx_from_xml(&bad_root, &fonts),
        Err(docx_editor::docx::DocxError::BadRootName)
    ));
    let no_body = WordXMLDocument {
        header: String::new(),
        root: Element::new("w:document"),
    };
    assert!(matches!(
        docx_from_xml(&no_body, &fonts),
        Err(docx_editor::docx::DocxError::MissingBody)
    ));
    let nameless_font = WordXMLDocument {
        header: String::new(),
        root: Element::new("w:fonts").with_element(Element::new("w:font")),
    };
    assert!(matches!(
        docx_from_xml(&tiny_document_xml(), &nameless_font),
        Err(docx_editor::docx::DocxError::MissingFontName)
    ));
}

#[test]
fn document_parses_paragraphs_and_fonts() {
    let doc = docx_from_xml(&tiny_document_xml(), &fonts_xml()).unwrap();
    let nodes = doc.content.nodes.as_ref().unwrap();
    assert_eq!(nodes.len(), 2);
    assert!(nodes[0].is_paragraph());
    assert!(nodes[1].is_sector_of_properties());
    assert!(doc.get_properties().is_some());
    match &nodes[0] {
        DocxNode::Paragrapth { texts, .. } => {
            assert_eq!(texts.len(), 1);
            assert_eq!(texts[0].content, "hello verified world");
        },
        _ => panic!("expected a paragraph"),
    }
}

#[test]
fn font_table_deduplicates_names_and_variants() {
    let mut table = FontTable::new_empty();
    let a = table.init_or_push_to_font("Serif".to_string(), "ab".to_string());
    let b = table.init_or_push_to_font("Mono".to_string(), "".to_string());
    let c = table.init_or_push_to_font("Serif".to_string(), "ba".to_string());
    assert_eq!(a, c);
    assert_ne!(a, b);
    assert_eq!(table.fonts.len(), 2);
    // "a" and "b" each packed once even though seen twice
    assert_eq!(table.fonts[a].variants.len(), 2);
}

fn page_y(p: &docx_editor::pages::Page) -> i64 {
    match &p.primitive.prop {
        docx_editor::primitives::PrimitiveProperties::Rect { rect, .. } => rect.left_top.y,
        _ => panic!("page background must be a rectangle"),
    }
}

fn materialized_doc(text: &str, page_height: i64) -> DocumentDraw {
    let mut words = get_words(&vec![docx_editor::props::TextNode {
        properties: TextProperties::default(),
        content: text.to_string(),
    }]);
    let par_tp = TextProperties::default();
    for w in words.iter_mut() {
        let sizes: Vec<Option<Size>> = w
            .glyphs_views
            .iter()
            .map(|gv| Some(Size { width: 10 * (gv.end - gv.start) as i64, height: 12 }))
            .collect();
        DocumentDraw::create_word_prim(w, &sizes, &par_tp, 100);
    }
    let mut doc = DocumentDraw::new_empty();
    doc.sect_properties.page_size = docx_editor::props::PageSize {
        width: 200,
        height: page_height,
    };
    doc.sect_properties.page_margin = docx_editor::props::PageMargin {
        footer: 5,
        gutter: 0,
        header: 5,
        bottom: 10,
        left: 10,
        right: 10,
        top: 10,
    };
    doc.paragraphs.push(Paragraph {
        properties: ParagraphProperties::default(),
        words,
        lines: Vec::new(),
    });
    doc
}

#[test]
fn relayout_builds_lines_and_pages() {
    let mut doc = materialized_doc("one two three four five six seven eight", 500);
    doc.update_document(400);
    assert_eq!(doc.pages.len(), 1);
    let par = &doc.paragraphs[0];
    assert!(par.lines.len() >= 1);
    assert_eq!(par.lines[0].range_start, 0);
    assert_eq!(par.lines.last().unwrap().range_end, par.words.len());
    // the words' text is untouched by relayout
    assert_eq!(par.words[0].word.concat(), "one");
}

#[test]
fn pagination_offsets_strictly_increase() {
    // a short page forces page breaks between lines
    let mut doc = materialized_doc(
        "w1 w2 w3 w4 w5 w6 w7 w8 w9 w10 w11 w12 w13 w14 w15 w16",
        40,
    );
    doc.update_document(400);
    assert!(doc.pages.len() >= 2);
    for pair in doc.pages.windows(2) {
        assert!(page_y(&pair[0]) < page_y(&pair[1]));
    }
}

#[test]
fn materialize_sets_effective_color_and_scale() {
    let mut words = get_words(&vec![docx_editor::props::TextNode {
        properties: TextProperties::default(),
        content: "ab".to_string(),
    }]);
    let mut par_tp = TextProperties::default();
    par_tp.color = Some(docx_editor::props::Color { r: 9, g: 8, b: 7, a: 255 });
    par_tp.size = Some(docx_editor::props::TextSize(20));
    let sizes = vec![Some(Size { width: 30, height: 12 })];
    DocumentDraw::create_word_prim(&mut words[0], &sizes, &par_tp, 100);
    match &words[0].glyphs_views[0].primitive.prop {
        docx_editor::primitives::PrimitiveProperties::PlainText(pt) => {
            assert_eq!(pt.content, "ab");
            assert_eq!((pt.color.r, pt.color.g, pt.color.b), (9, 8, 7));
            // 100% zoom, twice the effective 10-point size
            assert_eq!(pt.scale, 20);
            assert_eq!(pt.size, Size { width: 30, height: 12 });
        },
        _ => panic!("expected a text primitive"),
    }
}

#[test]
fn absent_font_leaves_segment_unmaterialised() {
    let mut words = get_words(&vec![docx_editor::props::TextNode {
        properties: TextProperties::default(),
        content: "ab".to_string(),
    }]);
    let sizes: Vec<Option<Size>> = vec![None];
    DocumentDraw::create_word_prim(&mut words[0], &sizes, &TextProperties::default(), 100);
    assert!(words[0].glyphs_views[0].primitive.is_empty());
}

#[test]
fn clear_document_drops_empty_words_and_keeps_content() {
    let mut doc = materialized_doc("a b", 500);
    doc.paragraphs[0].words.insert(
        1,
        docx_editor::word::Word { word: Vec::new(), glyphs_views: Vec::new() },
    );
    assert_eq!(doc.paragraphs[0].words.len(), 3);
    doc.clear_document();
    assert_eq!(doc.paragraphs[0].words.len(), 2);
    assert_eq!(doc.paragraphs[0].words[0].word.concat(), "a");
    assert_eq!(doc.paragraphs[0].words[1].word.concat(), "b");
}

#[test]
fn clear_document_drops_wordless_paragraphs() {
    let mut doc = materialized_doc("a", 500);
    doc.paragraphs.insert(0, Paragraph {
        properties: ParagraphProperties::default(),
        words: Vec::new(),
        lines: Vec::new(),
    });
    doc.clear_document();
    assert_eq!(doc.paragraphs.len(), 1);
    assert_eq!(doc.paragraphs[0].words[0].word.concat(), "a");
}

#[test]
fn runs_coalesce_adjacent_equal_styles() {
    let words = get_words(&vec![docx_editor::props::TextNode {
        properties: TextProperties::default(),
        content: "ab cd".to_string(),
    }]);
    let par = Paragraph { properties: ParagraphProperties::default(), words, lines: Vec::new() };
    let runs = paragraph_runs(&par);
    assert_eq!(runs.len(), 1);
    assert_eq!(runs[0].1, "ab cd");
}

#[test]
fn saved_tree_mirrors_paragraphs() {
    let doc = materialized_doc("ab cd", 500);
    let tree = doc.get_word_xml_document();
    assert_eq!(tree.root.name, "w:document");
    let body = tree.root.get_child("w:body").unwrap();
    // one paragraph element plus the closing section properties
    assert_eq!(body.inners.len(), 2);
    assert!(body.has_child("w:p"));
    assert!(body.has_child("w:sectPr"));
    let mut out = String::new();
    tree.write_to(&mut out);
    assert!(out.contains("<w:body>"));
    assert!(out.contains("ab cd"));
    assert!(out.contains("w:pgSz"));
}

#[test]
fn relayout_positions_first_glyph_at_content_corner() {
    let mut doc = materialized_doc("ab cd", 500);
    doc.update_document(400);
    // page is centred: x = (400 - 200) / 2; content shifts by the scaled
    // paddings (left 10, top 10 + header 5)
    let page = page_y(&doc.pages[0]);
    assert_eq!(page, 100);
    match &doc.paragraphs[0].words[0].glyphs_views[0].primitive.prop {
        docx_editor::primitives::PrimitiveProperties::PlainText(pt) => {
            assert_eq!(pt.left_top.x, 100 + 10);
            assert_eq!(pt.left_top.y, 100 + 15);
        },
        _ => panic!("expected a text primitive"),
    }
    // the second word starts after the first word's width plus the
    // default spacing scaled by the word's scale (here 24)
    match &doc.paragraphs[0].words[1].glyphs_views[0].primitive.prop {
        docx_editor::primitives::PrimitiveProperties::PlainText(pt) => {
            assert_eq!(pt.left_top.x, 100 + 10 + 20 + 24);
        },
        _ => panic!("expected a text primitive"),
    }
}

#[test]
fn saved_lengths_go_back_in_tenths() {
    let doc = materialized_doc("ab", 500);
    let tree = doc.get_word_xml_document();
    let mut out = String::new();
    tree.write_to(&mut out);
    assert!(out.contains("w:w=\"2000\""));
    assert!(out.contains("w:top=\"100\""));
}

#[test]
fn prims_put_pages_before_glyphs() {
    let mut doc = materialized_doc("ab", 500);
    doc.update_document(400);
    let prims = doc.prims();
    // pages first, then the cursor's caret primitives, then the glyphs
    assert_eq!(prims.len(), doc.pages.len() + doc.cursor_prims.len() + 1);
    match &prims[0].prop {
        docx_editor::primitives::PrimitiveProperties::Rect { .. } => {},
        _ => panic!("the first primitive is the page background"),
    }
}

#[test]
fn commands_adjust_scroll_and_scale() {
    let mut doc = materialized_doc("ab", 500);
    doc.update_document(400);
    doc.process_document_command(docx_editor::document::DocumentCommand::NewScroll(40));
    assert_eq!(doc.scroll, 40);
    doc.process_document_command(docx_editor::document::DocumentCommand::DeltaScroll(-15));
    assert_eq!(doc.scroll, 25);
    doc.process_document_command(docx_editor::document::DocumentCommand::NewScale(400));
    assert_eq!(doc.scale, 200);
    doc.process_document_command(docx_editor::document::DocumentCommand::NewScale(50));
    assert_eq!(doc.scale, 50);
}

#[test]
fn assemble_document_builds_paragraphs_from_nodes() {
    let node = DocxNode::Paragrapth {
        properties: ParagraphProperties::default(),
        attrs: Vec::new(),
        texts: vec![docx_editor::props::TextNode {
            properties: TextProperties::default(),
            content: "ab cd".to_string(),
        }],
    };
    let nodes = vec![node];
    let doc = docx_editor::document::assemble_document(&nodes, None);
    assert_eq!(doc.paragraphs.len(), 1);
    assert_eq!(doc.paragraphs[0].words.len(), 2);
    assert_eq!(doc.paragraphs[0].words[0].word.concat(), "ab");
    assert_eq!(doc.paragraphs[0].words[1].word.concat(), "cd");
    assert!(doc.paragraphs[0].lines.is_empty());
    assert_eq!(doc.scale, 100);
    assert_eq!(doc.scroll, 100);
    assert!(doc.pages.is_empty());

    let mut sect = docx_editor::props::SectrOfProperties::default();
    sect.page_size = docx_editor::props::PageSize { width: 321, height: 654 };
    let with_sect = docx_editor::document::assemble_document(&nodes, Some(sect));
    assert_eq!(with_sect.sect_properties.page_size.width, 321);
    assert_eq!(with_sect.sect_properties.page_size.height, 654);
}

#[test]
fn relayout_emits_a_caret_primitive_for_the_cursor_line() {
    // the default cursor sits on paragraph 0, line 0, so the relayout
    // leaves exactly one caret primitive behind
    let mut doc = materialized_doc("ab cd", 500);
    doc.update_document(400);
    assert_eq!(doc.cursor_prims.len(), 1);
}

#[test]
fn selection_inside_line_highlights_the_full_line() {
    let mut doc = materialized_doc("one two three four five six seven eight nine ten", 500);
    doc.update_document(150);
    let par = &doc.paragraphs[0];
    assert!(par.lines.len() >= 3);
    let last_line: usize = par.lines.len() - 1;
    let line = par.lines[1];
    let content_rect = docx_editor::geometry::Rectangle {
        left_top: docx_editor::geometry::Point { x: 10, y: 10 },
        right_bottom: docx_editor::geometry::Point { x: 110, y: 400 },
    };
    let cursor = docx_editor::cursor::Cursor::Select {
        start: docx_editor::cursor::CursorPos { par_idx: 0, line_idx: 0, char_idx: 0 },
        end: docx_editor::cursor::CursorPos { par_idx: 0, line_idx: last_line, char_idx: 0 },
    };
    let color = docx_editor::props::Color { r: 1, g: 2, b: 3, a: 4 };
    let mut prims: Vec<docx_editor::primitives::Primitive> = Vec::new();
    docx_editor::document::update_cursor_prims(
        &mut prims,
        color,
        &cursor,
        0,
        1,
        par,
        &line,
        content_rect,
        None,
    );
    assert_eq!(prims.len(), 1);
    match &prims[0].prop {
        docx_editor::primitives::PrimitiveProperties::Rect { rect, color: c } => {
            assert_eq!(*c, color);
            assert_eq!(rect.left_top, content_rect.left_top);
            assert_eq!(rect.right_bottom.x, 110);
            assert_eq!(rect.right_bottom.y, 10 + line.height);
        },
        _ => panic!("expected a highlight rectangle"),
    }
}

#[test]
fn caret_between_words_spans_the_gap() {
    let mut doc = materialized_doc("ab cd", 500);
    doc.update_document(400);
    let par = &doc.paragraphs[0];
    assert_eq!(par.lines.len(), 1);
    let line = par.lines[0];
    let content_rect = docx_editor::geometry::Rectangle {
        left_top: docx_editor::geometry::Point { x: 0, y: 0 },
        right_bottom: docx_editor::geometry::Point { x: 400, y: 400 },
    };
    // position 2 is the boundary after "ab": the caret spans from the
    // right edge of "ab" to the left edge of "cd"
    let rect = docx_editor::document::get_cursor_rect(&par.words, &line, 2, content_rect, None);
    let left_word_right = par.words[0].glyphs_views.last().unwrap().primitive.get_rect().right_bottom.x;
    let right_word_left = par.words[1].glyphs_views[0].primitive.get_rect().left_top.x;
    assert_eq!(rect.left_top.x, left_word_right);
    assert_eq!(rect.right_bottom.x, right_word_left);
    assert_eq!(rect.right_bottom.y, line.height);
}
