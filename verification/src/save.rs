//! Rebuilding the document-format element tree from the laid-out
//! document, for saving: paragraphs become `w:p` elements whose runs are
//! coalesced by adjacent equal style, and the section properties close
//! the body.

use vstd::prelude::*;
use vstd::string::{StrSliceExecFns, StringExecFns};

use crate::document::{DocumentDraw, Paragraph};
use crate::props::{
    hex2, props_eq_spec, PageMargin, PageSize, ParagraphProperties, SectrOfProperties,
    SpacingProperties, TextDirection, TextProperties, TextWeight,
};
use crate::strutil::{dec_str, u64_to_string};
use crate::word::Word;
use crate::xml::{
    elem_text, lemma_elem_text_empty, lemma_nodes_text_push, nodes_text, Element, Node,
    WordXMLDocument,
};

verus! {

/// A childless, attribute-less child element with the given name.
pub open spec fn named_empty_child(n: Node, name: Seq<char>) -> bool {
    n matches Node::Element(c) && c.name@ == name && c.attrs@.len() == 0 && c.inners@.len() == 0
}

/// A childless child element with the given name and a single attribute.
pub open spec fn one_attr_child(n: Node, name: Seq<char>, attr: Seq<char>, value: Seq<char>) -> bool {
    n matches Node::Element(c) && c.name@ == name && c.inners@.len() == 0 && c.attrs@.len() == 1
        && c.attrs@[0].name@ == attr && c.attrs@[0].value@ == value
}

/// The `w:rFonts` element naming one font for all three scripts.
pub open spec fn fonts_child(n: Node, fname: Seq<char>) -> bool {
    n matches Node::Element(c) && c.name@ == "w:rFonts"@ && c.inners@.len() == 0
        && c.attrs@.len() == 3 && c.attrs@[0].name@ == "w:ascii"@ && c.attrs@[0].value@ == fname
        && c.attrs@[1].name@ == "w:hAnsi"@ && c.attrs@[1].value@ == fname && c.attrs@[2].name@
        == "w:cs"@ && c.attrs@[2].value@ == fname
}

/// The `w:rPr` element emitted for these run properties: its optional
/// children in order (bold flag, italic flag, the two halved sizes, the
/// font family, the color), each present exactly when the property is
/// set, with the attribute values pinned.
pub open spec fn rpr_matches(e: Element, tp: TextProperties) -> bool {
    let nb: int = if tp.weight is Bold {
        1
    } else {
        0
    };
    let ni: int = if tp.italic {
        1
    } else {
        0
    };
    let ns: int = if tp.size is Some {
        2
    } else {
        0
    };
    let nf: int = if tp.font_name is Some {
        1
    } else {
        0
    };
    let nc: int = if tp.color is Some {
        1
    } else {
        0
    };
    &&& e.name@ == "w:rPr"@
    &&& e.attrs@.len() == 0
    &&& e.inners@.len() == nb + ni + ns + nf + nc
    &&& (tp.weight is Bold ==> named_empty_child(e.inners@[0], "w:b"@))
    &&& (tp.italic ==> named_empty_child(e.inners@[nb], "w:i"@))
    &&& (tp.size matches Some(sz) ==> one_attr_child(
        e.inners@[nb + ni],
        "w:sz"@,
        "w:val"@,
        dec_str(((sz.0 / 2) as u64) as nat),
    ) && one_attr_child(
        e.inners@[nb + ni + 1],
        "w:szCs"@,
        "w:val"@,
        dec_str(((sz.0 / 2) as u64) as nat),
    ))
    &&& (tp.font_name matches Some(fname) ==> fonts_child(e.inners@[nb + ni + ns], fname@))
    &&& (tp.color matches Some(c) ==> one_attr_child(
        e.inners@[nb + ni + ns + nf],
        "w:color"@,
        "w:val"@,
        hex2(c.r as nat) + hex2(c.g as nat) + hex2(c.b as nat),
    ))
}

/// Ten times a non-negative length, saturating at the numeric limit.
pub open spec fn spec_times_ten(v: int) -> int {
    if 10 * v <= u64::MAX as int {
        10 * v
    } else {
        u64::MAX as int
    }
}

/// The attribute name of a text direction, as emitted.
pub open spec fn spec_text_direction_name(t: TextDirection) -> Seq<char> {
    match t {
        TextDirection::LeftToRightTopToBottom => "lrTb"@,
        TextDirection::LeftToRightBottomToTop => "lrBt"@,
        TextDirection::RightToLeftTopToBottom => "rlTb"@,
        TextDirection::RightToLeftBottomToTop => "rlBt"@,
    }
}

/// The `w:pgSz` element for a page size, lengths back in tenths.
pub open spec fn pgsz_child(n: Node, sz: PageSize) -> bool {
    n matches Node::Element(c) && c.name@ == "w:pgSz"@ && c.inners@.len() == 0 && c.attrs@.len()
        == 2 && c.attrs@[0].name@ == "w:w"@ && c.attrs@[0].value@ == dec_str(
        spec_times_ten(sz.width as int) as nat,
    ) && c.attrs@[1].name@ == "w:h"@ && c.attrs@[1].value@ == dec_str(
        spec_times_ten(sz.height as int) as nat,
    )
}

/// The `w:pgMar` element for page margins, lengths back in tenths.
pub open spec fn pgmar_child(n: Node, m: PageMargin) -> bool {
    n matches Node::Element(c) && c.name@ == "w:pgMar"@ && c.inners@.len() == 0 && c.attrs@.len()
        == 7 && c.attrs@[0].name@ == "w:top"@ && c.attrs@[0].value@ == dec_str(
        spec_times_ten(m.top as int) as nat,
    ) && c.attrs@[1].name@ == "w:right"@ && c.attrs@[1].value@ == dec_str(
        spec_times_ten(m.right as int) as nat,
    ) && c.attrs@[2].name@ == "w:bottom"@ && c.attrs@[2].value@ == dec_str(
        spec_times_ten(m.bottom as int) as nat,
    ) && c.attrs@[3].name@ == "w:left"@ && c.attrs@[3].value@ == dec_str(
        spec_times_ten(m.left as int) as nat,
    ) && c.attrs@[4].name@ == "w:header"@ && c.attrs@[4].value@ == dec_str(
        spec_times_ten(m.header as int) as nat,
    ) && c.attrs@[5].name@ == "w:footer"@ && c.attrs@[5].value@ == dec_str(
        spec_times_ten(m.footer as int) as nat,
    ) && c.attrs@[6].name@ == "w:gutter"@ && c.attrs@[6].value@ == dec_str(
        spec_times_ten(m.gutter as int) as nat,
    )
}

/// The `w:sectPr` element emitted for the section properties: the
/// optional page-number, page-type and form-protection flags in order,
/// then the text direction, page size and page margins, all values
/// pinned.
pub open spec fn sect_elem_ok(e: Element, s: SectrOfProperties) -> bool {
    let nn: int = if s.page_num_type is Some {
        1
    } else {
        0
    };
    let nt: int = if s.page_type is Some {
        1
    } else {
        0
    };
    let nf: int = if s.form_prot is Some {
        1
    } else {
        0
    };
    &&& e.name@ == "w:sectPr"@
    &&& e.attrs@.len() == 0
    &&& e.inners@.len() == nn + nt + nf + 3
    &&& (s.page_num_type is Some ==> one_attr_child(
        e.inners@[0],
        "w:pgNumType"@,
        "w:fmt"@,
        "decimal"@,
    ))
    &&& (s.page_type is Some ==> one_attr_child(e.inners@[nn], "w:type"@, "w:val"@, "nextPage"@))
    &&& (s.form_prot matches Some(fp) ==> one_attr_child(
        e.inners@[nn + nt],
        "w:formProt"@,
        "w:val"@,
        if fp.val {
            "true"@
        } else {
            "false"@
        },
    ))
    &&& one_attr_child(
        e.inners@[nn + nt + nf],
        "w:textDirection"@,
        "w:val"@,
        spec_text_direction_name(s.text_direction),
    )
    &&& pgsz_child(e.inners@[nn + nt + nf + 1], s.page_size)
    &&& pgmar_child(e.inners@[nn + nt + nf + 2], s.page_margin)
}

/// Append a child element that carries no character data, preserving
/// the parent's text content.
fn append_no_text(parent: &mut Element, child: Element)
    requires
        elem_text(child) == Seq::<char>::empty(),
    ensures
        final(parent).name == old(parent).name,
        final(parent).attrs == old(parent).attrs,
        final(parent).inners@ == old(parent).inners@.push(Node::Element(child)),
        nodes_text(final(parent).inners@) == nodes_text(old(parent).inners@),
{
    proof {
        lemma_nodes_text_push(parent.inners@, Node::Element(child));
        assert(nodes_text(parent.inners@.push(Node::Element(child))) =~= nodes_text(
            parent.inners@,
        ));
    }
    parent.append_element(child);
}

/// Append a childless element, preserving the parent's text content.
fn append_childless(parent: &mut Element, child: Element)
    requires
        child.inners@.len() == 0,
    ensures
        final(parent).name == old(parent).name,
        final(parent).attrs == old(parent).attrs,
        final(parent).inners@ == old(parent).inners@.push(Node::Element(child)),
        nodes_text(final(parent).inners@) == nodes_text(old(parent).inners@),
{
    proof {
        lemma_elem_text_empty(child);
    }
    append_no_text(parent, child);
}

/// The `w:rPr` element for a run's properties: weight, italic, sizes,
/// font family and color, each present only when set.  It carries no
/// character data.
pub fn process_rpr(rpr: &TextProperties) -> (r: Element)
    ensures
        r.name@ == "w:rPr"@,
        elem_text(r) == Seq::<char>::empty(),
        rpr_matches(r, *rpr),
{
    let mut builder = Element::new("w:rPr");
    proof {
        assert(nodes_text(builder.inners@) =~= Seq::<char>::empty());
    }
    match rpr.weight {
        TextWeight::Bold => {
            append_childless(&mut builder, Element::new("w:b"));
        },
        TextWeight::Regular => {},
    }
    if rpr.italic {
        append_childless(&mut builder, Element::new("w:i"));
    }
    if let Some(size) = &rpr.size {
        let e = Element::new("w:sz").with_attr("w:val", u64_to_string((size.0 / 2) as u64));
        append_childless(&mut builder, e);
    }
    if let Some(size_cs) = &rpr.size {
        let e = Element::new("w:szCs").with_attr("w:val", u64_to_string((size_cs.0 / 2) as u64));
        append_childless(&mut builder, e);
    }
    if let Some(font_name) = &rpr.font_name {
        let e = Element::new("w:rFonts").with_attr("w:ascii", font_name.clone()).with_attr(
            "w:hAnsi",
            font_name.clone(),
        ).with_attr("w:cs", font_name.clone());
        append_childless(&mut builder, e);
    }
    if let Some(color) = &rpr.color {
        let e = Element::new("w:color").with_attr("w:val", color.to_xml_val());
        append_childless(&mut builder, e);
    }
    proof {
        assert(rpr_matches(builder, *rpr));
    }
    builder
}

/// The `w:spacing` element for a paragraph's spacing (values are emitted
/// back in the format's tenths).
pub fn process_spacing(spacing: &SpacingProperties) -> (r: Element)
    ensures
        r.name@ == "w:spacing"@,
        elem_text(r) == Seq::<char>::empty(),
{
    let mut builder = Element::new("w:spacing");
    proof {
        assert(nodes_text(builder.inners@) =~= Seq::<char>::empty());
    }
    if let Some(line) = spacing.line {
        if line >= 0 {
            builder.append_attr("w:line", u64_to_string(times_ten(line)));
        }
    }
    if let Some(line_rule) = spacing.line_rule {
        builder.append_attr("w:lineRule", line_rule.xml_name());
    }
    if let Some(after) = spacing.after {
        if after >= 0 {
            builder.append_attr("w:after", u64_to_string(times_ten(after)));
        }
    }
    if let Some(before) = spacing.before {
        if before >= 0 {
            builder.append_attr("w:before", u64_to_string(times_ten(before)));
        }
    }
    builder
}

/// The `w:pPr` element for a paragraph's properties.  It carries no
/// character data.
pub fn process_ppr(ppr: &ParagraphProperties) -> (r: Element)
    ensures
        r.name@ == "w:pPr"@,
        elem_text(r) == Seq::<char>::empty(),
{
    let mut builder = Element::new("w:pPr");
    proof {
        assert(nodes_text(builder.inners@) =~= Seq::<char>::empty());
    }
    append_childless(
        &mut builder,
        Element::new("w:pStyle").with_attr("w:val", String::from_str("Normal")),
    );
    append_childless(
        &mut builder,
        Element::new("w:bidi").with_attr("w:val", String::from_str("0")),
    );
    if let Some(justify) = ppr.justify {
        append_childless(&mut builder, Element::new("w:jc").with_attr("w:val", justify.xml_name()));
    }
    if let Some(rpr) = &ppr.text_properties {
        append_no_text(&mut builder, process_rpr(rpr));
    }
    append_no_text(&mut builder, process_spacing(&ppr.spacing));
    builder
}

/// The `w:sectPr` element for the section properties; lengths go back
/// out in the format's tenths.
pub fn process_sect_of_properties(sect: &SectrOfProperties) -> (r: Element)
    requires
        sect.wf(),
    ensures
        r.name@ == "w:sectPr"@,
        sect_elem_ok(r, *sect),
{
    let mut builder = Element::new("w:sectPr");
    if let Some(num_type) = &sect.page_num_type {
        builder.append_element(
            Element::new("w:pgNumType").with_attr("w:fmt", num_type.xml_name()),
        );
    }
    if let Some(page_type) = &sect.page_type {
        builder.append_element(Element::new("w:type").with_attr("w:val", page_type.xml_name()));
    }
    if let Some(form_prot) = &sect.form_prot {
        builder.append_element(
            Element::new("w:formProt").with_attr("w:val", form_prot.xml_name()),
        );
    }
    let b = builder.with_element(
        Element::new("w:textDirection").with_attr("w:val", sect.text_direction.xml_name()),
    ).with_element(
        Element::new("w:pgSz").with_attr(
            "w:w",
            u64_to_string(times_ten(sect.page_size.width)),
        ).with_attr("w:h", u64_to_string(times_ten(sect.page_size.height))),
    ).with_element(
        Element::new("w:pgMar").with_attr(
            "w:top",
            u64_to_string(times_ten(sect.page_margin.top)),
        ).with_attr("w:right", u64_to_string(times_ten(sect.page_margin.right))).with_attr(
            "w:bottom",
            u64_to_string(times_ten(sect.page_margin.bottom)),
        ).with_attr("w:left", u64_to_string(times_ten(sect.page_margin.left))).with_attr(
            "w:header",
            u64_to_string(times_ten(sect.page_margin.header)),
        ).with_attr("w:footer", u64_to_string(times_ten(sect.page_margin.footer))).with_attr(
            "w:gutter",
            u64_to_string(times_ten(sect.page_margin.gutter)),
        ),
    );
    proof {
        assert(sect_elem_ok(b, *sect));
    }
    b
}

/// Ten times a non-negative length, saturating at the numeric limit.
fn times_ten(v: i64) -> (r: u64)
    requires
        0 <= v,
    ensures
        r as int == spec_times_ten(v as int),
{
    let u = v as u64;
    if u > u64::MAX / 10 {
        proof {
            assert(v * 10 > u64::MAX) by (nonlinear_arith)
                requires
                    v as u64 > u64::MAX / 10,
                    v == v as u64,
            ;
        }
        u64::MAX
    } else {
        proof {
            assert(u * 10 <= u64::MAX) by (nonlinear_arith)
                requires
                    u <= u64::MAX / 10,
            ;
        }
        u * 10
    }
}

/// Every grapheme of every word is a nonempty cluster (as the segmenter
/// produces them).
pub open spec fn nonempty_graphemes(words: Seq<Word>) -> bool {
    forall|w: int, i: int|
        0 <= w < words.len() && 0 <= i < (#[trigger] words[w]).text().len() ==> (
        #[trigger] words[w].text()[i]).len() > 0
}

/// The characters of a whole word.
pub open spec fn word_chars(w: Word) -> Seq<char> {
    crate::document::flatten_range(w.text(), 0, w.text().len() as int)
}

/// The words' characters up to `upto`, joined by single spaces (no space
/// before the first character emitted).
#[verifier::opaque]
pub open spec fn joined_words(words: Seq<Word>, upto: int) -> Seq<char>
    decreases upto,
{
    if upto <= 0 {
        Seq::<char>::empty()
    } else {
        let prev = joined_words(words, upto - 1);
        let sep: Seq<char> = if prev.len() > 0 {
            seq![' ']
        } else {
            Seq::<char>::empty()
        };
        prev + sep + word_chars(words[upto - 1])
    }
}

/// The concatenated texts of the runs up to `upto`.
#[verifier::opaque]
pub open spec fn runs_chars(runs: Seq<(TextProperties, String)>, upto: int) -> Seq<char>
    decreases upto,
{
    if upto <= 0 {
        Seq::<char>::empty()
    } else {
        runs_chars(runs, upto - 1) + runs[upto - 1].1@
    }
}

/// One unfolding step of `joined_words`.
proof fn lemma_joined_snoc(words: Seq<Word>, upto: int)
    requires
        0 < upto,
    ensures
        joined_words(words, upto) == ({
            let prev = joined_words(words, upto - 1);
            let sep: Seq<char> = if prev.len() > 0 {
                seq![' ']
            } else {
                Seq::<char>::empty()
            };
            prev + sep + word_chars(words[upto - 1])
        }),
{
    reveal_with_fuel(joined_words, 2);
}

/// One unfolding step of `runs_chars`.
proof fn lemma_runs_snoc(runs: Seq<(TextProperties, String)>, upto: int)
    requires
        0 < upto,
    ensures
        runs_chars(runs, upto) == runs_chars(runs, upto - 1) + runs[upto - 1].1@,
{
    reveal_with_fuel(runs_chars, 2);
}

/// Prefix-stability of `runs_chars` under push.
proof fn lemma_runs_chars_push(
    runs: Seq<(TextProperties, String)>,
    x: (TextProperties, String),
    upto: int,
)
    requires
        0 <= upto <= runs.len(),
    ensures
        runs_chars(runs.push(x), upto) == runs_chars(runs, upto),
    decreases upto,
{
    reveal_with_fuel(runs_chars, 2);
    if upto > 0 {
        lemma_runs_chars_push(runs, x, upto - 1);
        assert(runs.push(x)[upto - 1] == runs[upto - 1]);
    }
}

/// The coalesced style runs of a paragraph: walking the words' segments
/// in order (words separated by single spaces), a segment joins the
/// current run while its properties are equal, else it closes the run
/// and starts a new one.  No two adjacent returned runs share
/// properties; a paragraph with no segments yields one default run.
pub fn paragraph_runs(par: &Paragraph) -> (r: Vec<(TextProperties, String)>)
    requires
        par.words_wf(),
    ensures
        r@.len() >= 1,
        forall|i: int|
            #![trigger r@[i], r@[i + 1]]
            0 <= i < r@.len() - 1 ==> !props_eq_spec(r@[i].0, r@[i + 1].0),
        // emitted text preserves the paragraph's content: the concatenated
        // run texts are the words joined by single spaces
        nonempty_graphemes(par.words@) ==> runs_chars(r@, r@.len() as int) == joined_words(
            par.words@,
            par.words@.len() as int,
        ),
{
    let mut runs: Vec<(TextProperties, String)> = Vec::new();
    let mut text_cont = String::new();
    let mut text_prop: Option<TextProperties> = None;
    let wn = par.words.len();
    let ghost h = nonempty_graphemes(par.words@);
    proof {
        reveal_with_fuel(joined_words, 1);
        reveal_with_fuel(runs_chars, 1);
    }
    let mut w: usize = 0;
    while w < wn
        invariant
            w <= wn,
            wn == par.words@.len(),
            par.words_wf(),
            h == nonempty_graphemes(par.words@),
            forall|i: int|
                #![trigger runs@[i], runs@[i + 1]]
                0 <= i < runs@.len() - 1 ==> !props_eq_spec(runs@[i].0, runs@[i + 1].0),
            runs@.len() > 0 ==> (text_prop matches Some(tp) && !props_eq_spec(
                runs@.last().0,
                tp,
            )),
            text_prop is None ==> text_cont@.len() == 0 && runs@.len() == 0,
            h ==> runs_chars(runs@, runs@.len() as int) + text_cont@ == joined_words(
                par.words@,
                w as int,
            ),
            h && text_cont@.len() == 0 ==> joined_words(par.words@, w as int).len() == 0
                && runs@.len() == 0,
        decreases wn - w,
    {
        let ghost pre_sep = text_cont@;
        if text_cont.unicode_len() > 0 {
            text_cont.append(" ");
            proof {
                reveal_strlit(" ");
                assert(text_cont@ =~= pre_sep + seq![' ']);
            }
        }
        let ghost word_base = runs_chars(runs@, runs@.len() as int) + text_cont@;
        proof {
            reveal_with_fuel(crate::document::flatten_range, 1);
            if h {
                lemma_joined_snoc(par.words@, w as int + 1);
            }
        }
        let gn = par.words[w].glyphs_views.len();
        let mut g: usize = 0;
        while g < gn
            invariant
                w < wn,
                g <= gn,
                wn == par.words@.len(),
                gn == par.words@[w as int].glyphs_views@.len(),
                par.words_wf(),
                h == nonempty_graphemes(par.words@),
                forall|i: int|
                    #![trigger runs@[i], runs@[i + 1]]
                    0 <= i < runs@.len() - 1 ==> !props_eq_spec(runs@[i].0, runs@[i + 1].0),
                runs@.len() > 0 ==> (text_prop matches Some(tp) && !props_eq_spec(
                    runs@.last().0,
                    tp,
                )),
                text_prop is None ==> text_cont@.len() == 0 && runs@.len() == 0,
                h ==> runs_chars(runs@, runs@.len() as int) + text_cont@ == word_base
                    + crate::document::flatten_range(
                    par.words@[w as int].text(),
                    0,
                    if g == 0 {
                        0
                    } else {
                        par.words@[w as int].segs()[g as int - 1].end
                    },
                ),
                h && gn > 0 ==> word_base == joined_words(par.words@, w as int) + (
                if joined_words(par.words@, w as int).len() > 0 {
                    seq![' ']
                } else {
                    Seq::<char>::empty()
                }),
                h && text_cont@.len() == 0 ==> word_base.len() == 0 && g == 0 && runs@.len()
                    == 0,
            decreases gn - g,
        {
            let gs = par.words[w].glyphs_views[g].start;
            let ge = par.words[w].glyphs_views[g].end;
            proof {
                assert(par.words@[w as int].wf());
                assert(par.words@[w as int].segs()[g as int].start < par.words@[
                    w as int
                ].segs()[g as int].end);
                if (g as int) < par.words@[w as int].segs().len() - 1 {
                    crate::word::lemma_segs_monotone_pub(
                        par.words@[w as int],
                        g as int,
                        par.words@[w as int].segs().len() - 1,
                    );
                    assert(par.words@[w as int].segs().last().start < par.words@[
                        w as int
                    ].segs().last().end);
                }
                assert(par.words@[w as int].segs()[g as int].end <= par.words@[
                    w as int
                ].text().len());
                if g > 0 {
                    let gm = g as int - 1;
                    assert(par.words@[w as int].segs()[gm + 1].start == par.words@[
                        w as int
                    ].segs()[gm].end);
                }
            }
            let slice = crate::document::join_graphemes(&par.words[w].word, gs, ge);
            let ghost pre_text = text_cont@;
            let ghost wtext = par.words@[w as int].text();
            proof {
                if h {
                    assert forall|i: int| gs as int <= i < ge as int implies (#[trigger] wtext[
                        i
                    ]).len() > 0 by {
                        assert(par.words@[w as int].text()[i].len() > 0);
                    };
                    crate::document::lemma_flatten_range_nonempty(wtext, gs as int, ge as int);
                    crate::document::lemma_flatten_range_app(wtext, 0, gs as int, ge as int);
                }
            }
            let cur_props = &par.words[w].glyphs_views[g].properties;
            match &text_prop {
                Some(prop) => {
                    if !prop.props_eq(cur_props) {
                        let ghost prevruns = runs@;
                        let pclone = prop.clone();
                        runs.push((pclone, text_cont));
                        text_prop = Some(cur_props.clone());
                        text_cont = slice;
                        proof {
                            reveal_with_fuel(runs_chars, 1);
                            lemma_runs_chars_push(
                                prevruns,
                                runs@.last(),
                                prevruns.len() as int,
                            );
                            lemma_runs_snoc(runs@, runs@.len() as int);
                            assert(runs_chars(runs@, runs@.len() as int) == runs_chars(
                                prevruns,
                                prevruns.len() as int,
                            ) + pre_text);
                            assert forall|i: int|
                                #![trigger runs@[i], runs@[i + 1]]
                                0 <= i < runs@.len() - 1 implies !props_eq_spec(
                                runs@[i].0,
                                runs@[i + 1].0,
                            ) by {
                                if i + 1 < prevruns.len() {
                                    assert(runs@[i] == prevruns[i]);
                                    assert(runs@[i + 1] == prevruns[i + 1]);
                                } else {
                                    if i >= 0 && prevruns.len() > 0 {
                                        assert(runs@[i] == prevruns[i]);
                                    }
                                }
                            };
                        }
                    } else {
                        text_cont.append(slice.as_str());
                    }
                },
                None => {
                    text_prop = Some(cur_props.clone());
                    text_cont = slice;
                },
            }
            proof {
                reveal_with_fuel(crate::document::flatten_range, 1);
                if h {
                    let prev_end: int = if g == 0 {
                        0
                    } else {
                        par.words@[w as int].segs()[g as int - 1].end
                    };
                    assert(par.words@[w as int].segs()[g as int].start == gs as int);
                    assert(par.words@[w as int].segs()[g as int].end == ge as int);
                    assert(par.words@[w as int].segs()[g as int].start == prev_end);
                    assert(gs as int == prev_end);
                    assert(crate::document::flatten_range(wtext, 0, prev_end)
                        + crate::document::flatten_range(wtext, gs as int, ge as int)
                        == crate::document::flatten_range(wtext, 0, ge as int));
                    assert(runs_chars(runs@, runs@.len() as int) + text_cont@ =~= (word_base
                        + crate::document::flatten_range(wtext, 0, prev_end)) + slice@);
                    assert((word_base + crate::document::flatten_range(wtext, 0, prev_end))
                        + slice@ =~= word_base + (crate::document::flatten_range(
                        wtext,
                        0,
                        prev_end,
                    ) + slice@));
                    assert(crate::document::flatten_range(wtext, 0, prev_end) + slice@
                        =~= crate::document::flatten_range(wtext, 0, ge as int));
                    assert(runs_chars(runs@, runs@.len() as int) + text_cont@ =~= word_base
                        + crate::document::flatten_range(wtext, 0, ge as int));
                }
            }
            g += 1;
        }
        proof {
            reveal_with_fuel(crate::document::flatten_range, 1);
            if h {
                if gn > 0 {
                    assert(par.words@[w as int].segs().last().end == par.words@[
                        w as int
                    ].text().len());
                } else {
                    assert(par.words@[w as int].text().len() == 0);
                }
                assert(runs_chars(runs@, runs@.len() as int) + text_cont@ == joined_words(
                    par.words@,
                    w as int + 1,
                ));
            }
        }
        w += 1;
    }
    let last_prop = match text_prop {
        Some(p) => p,
        None => TextProperties {
            font_handle: 0,
            font_name: None,
            size: None,
            size_cs: None,
            weight: TextWeight::Regular,
            color: None,
            underline: false,
            italic: false,
        },
    };
    let ghost prevruns = runs@;
    let ghost final_text = text_cont@;
    runs.push((last_prop, text_cont));
    proof {
        if h {
            lemma_runs_chars_push(prevruns, runs@.last(), prevruns.len() as int);
            lemma_runs_snoc(runs@, runs@.len() as int);
            assert(runs_chars(runs@, runs@.len() as int) == runs_chars(
                prevruns,
                prevruns.len() as int,
            ) + final_text);
            assert(par.words@.len() == wn);
        }
        assert forall|i: int|
            #![trigger runs@[i], runs@[i + 1]]
            0 <= i < runs@.len() - 1 implies !props_eq_spec(runs@[i].0, runs@[i + 1].0) by {
            if i + 1 < prevruns.len() {
                assert(runs@[i] == prevruns[i]);
                assert(runs@[i + 1] == prevruns[i + 1]);
            } else {
                if i >= 0 {
                    assert(runs@[i] == prevruns[i]);
                }
            }
        };
    }
    runs
}

/// A `w:r` element for one emitted run: its properties element and a
/// `w:t` holding exactly the run's text.
pub open spec fn run_elem_ok(n: Node, run: (TextProperties, String)) -> bool {
    n matches Node::Element(re) && re.name@ == "w:r"@ && re.attrs@.len() == 0
        && re.inners@.len() == 2 && (re.inners@[0] matches Node::Element(rp) && rpr_matches(
        rp,
        run.0,
    )) && (re.inners@[1] matches Node::Element(te) && te.name@ == "w:t"@ && te.inners@.len() == 1
        && (te.inners@[0] matches Node::Text(t) && t.0@ == run.1@))
}

/// The paragraph element's children after the properties are exactly
/// these runs, in order, and no two adjacent runs share properties.
pub open spec fn par_runs_ok(pe: Element, runs: Seq<(TextProperties, String)>) -> bool {
    &&& runs.len() >= 1
    &&& runs.len() + 1 == pe.inners@.len()
    &&& forall|i: int|
        #![trigger runs[i], runs[i + 1]]
        0 <= i < runs.len() - 1 ==> !props_eq_spec(runs[i].0, runs[i + 1].0)
    &&& forall|i: int| 0 <= i < runs.len() ==> run_elem_ok(pe.inners@[i + 1], #[trigger] runs[i])
}

/// The node is a `w:p` element whose children are the paragraph
/// properties followed by `w:r` runs (adjacent runs carrying distinct
/// properties), and whose character data is the paragraph's words
/// joined by single spaces.
pub open spec fn par_elem_ok(n: Node, par: Paragraph) -> bool {
    n matches Node::Element(pe) && pe.name@ == "w:p"@ && pe.inners@.len() >= 2
        && pe.child_named(0, "w:pPr"@) && (forall|k: int|
        1 <= k < pe.inners@.len() ==> pe.child_named(k, "w:r"@)) && (nonempty_graphemes(par.words@)
        ==> elem_text(pe) == joined_words(par.words@, par.words@.len() as int)) && (exists|
        runs: Seq<(TextProperties, String)>,
    |
        par_runs_ok(pe, runs))
}

impl DocumentDraw {
    /// Rebuild the document-format tree for saving: a `w:document` root
    /// holding a `w:body` with one `w:p` per paragraph (its properties
    /// and its coalesced runs) and the section properties at the end.
    /// Each paragraph element carries exactly its paragraph's text, the
    /// words joined by single spaces.
    pub fn get_word_xml_document(&self) -> (r: WordXMLDocument)
        requires
            forall|p: int|
                0 <= p < self.paragraphs@.len() ==> (#[trigger] self.paragraphs@[p]).words_wf(),
            self.sect_properties.wf(),
        ensures
            r.root.name@ == "w:document"@,
            r.root.inners@.len() == 1,
            r.root.inners@[0] matches Node::Element(body) && body.name@ == "w:body"@
                && body.inners@.len() == self.paragraphs@.len() + 1 && (forall|p: int|
                0 <= p < self.paragraphs@.len() ==> par_elem_ok(
                    #[trigger] body.inners@[p],
                    self.paragraphs@[p],
                )) && (body.inners@[self.paragraphs@.len() as int] matches Node::Element(se)
                && sect_elem_ok(se, self.sect_properties)),
    {
        let mut body = Element::new("w:body");
        let pn = self.paragraphs.len();
        let mut p: usize = 0;
        while p < pn
            invariant
                p <= pn,
                pn == self.paragraphs@.len(),
                forall|q: int|
                    0 <= q < pn ==> (#[trigger] self.paragraphs@[q]).words_wf(),
                self.sect_properties.wf(),
                body.name@ == "w:body"@,
                body.inners@.len() == p,
                forall|q: int|
                    0 <= q < p ==> par_elem_ok(#[trigger] body.inners@[q], self.paragraphs@[q]),
            decreases pn - p,
        {
            let ppr_elem = process_ppr(&self.paragraphs[p].properties);
            let mut par_elem = Element::new("w:p");
            proof {
                assert(nodes_text(par_elem.inners@) =~= Seq::<char>::empty());
            }
            append_no_text(&mut par_elem, ppr_elem);
            let runs = paragraph_runs(&self.paragraphs[p]);
            let ghost h = nonempty_graphemes(self.paragraphs@[p as int].words@);
            proof {
                reveal_with_fuel(runs_chars, 1);
            }
            let rn = runs.len();
            let mut ri: usize = 0;
            while ri < rn
                invariant
                    ri <= rn,
                    rn == runs@.len(),
                    par_elem.name@ == "w:p"@,
                    par_elem.attrs@.len() == 0,
                    par_elem.inners@.len() == 1 + ri,
                    par_elem.child_named(0, "w:pPr"@),
                    forall|k: int| 1 <= k < par_elem.inners@.len() ==> par_elem.child_named(
                        k,
                        "w:r"@,
                    ),
                    forall|i: int|
                        0 <= i < ri ==> run_elem_ok(par_elem.inners@[i + 1], #[trigger] runs@[i]),
                    nodes_text(par_elem.inners@) == runs_chars(runs@, ri as int),
                decreases rn - ri,
            {
                let rpr_elem = process_rpr(&runs[ri].0);
                let mut r_elem = Element::new("w:r");
                proof {
                    assert(nodes_text(r_elem.inners@) =~= Seq::<char>::empty());
                }
                append_no_text(&mut r_elem, rpr_elem);
                let t_elem = Element::new("w:t").with_text(runs[ri].1.as_str());
                proof {
                    lemma_nodes_text_push(Seq::<Node>::empty(), t_elem.inners@.last());
                    assert(t_elem.inners@ =~= Seq::<Node>::empty().push(t_elem.inners@.last()));
                    assert(elem_text(t_elem) =~= runs@[ri as int].1@);
                    lemma_nodes_text_push(r_elem.inners@, Node::Element(t_elem));
                }
                let r2 = r_elem.with_element(t_elem);
                proof {
                    assert(elem_text(r2) =~= runs@[ri as int].1@);
                    lemma_nodes_text_push(par_elem.inners@, Node::Element(r2));
                    lemma_runs_snoc(runs@, ri as int + 1);
                }
                let ghost par_pre = par_elem;
                par_elem.append_element(r2);
                proof {
                    assert(nodes_text(par_elem.inners@) =~= runs_chars(runs@, ri as int + 1));
                    assert forall|k: int|
                        1 <= k < par_elem.inners@.len() implies par_elem.child_named(
                        k,
                        "w:r"@,
                    ) by {
                        if k < par_pre.inners@.len() {
                            assert(par_elem.inners@[k] == par_pre.inners@[k]);
                            assert(par_pre.child_named(k, "w:r"@));
                        } else {
                            assert(par_elem.inners@[k] == Node::Element(r2));
                        }
                    };
                    assert(par_elem.inners@[0] == par_pre.inners@[0]);
                    assert(r2.inners@.len() == 2);
                    assert(r2.inners@[0] == Node::Element(rpr_elem));
                    assert(r2.inners@[1] == Node::Element(t_elem));
                    assert(run_elem_ok(Node::Element(r2), runs@[ri as int]));
                    assert forall|i: int|
                        0 <= i < ri + 1 implies run_elem_ok(
                        par_elem.inners@[i + 1],
                        #[trigger] runs@[i],
                    ) by {
                        if i < ri {
                            assert(par_elem.inners@[i + 1] == par_pre.inners@[i + 1]);
                        } else {
                            assert(par_elem.inners@[i + 1] == Node::Element(r2));
                        }
                    };
                }
                ri += 1;
            }
            proof {
                if h {
                    assert(runs_chars(runs@, rn as int) == joined_words(
                        self.paragraphs@[p as int].words@,
                        self.paragraphs@[p as int].words@.len() as int,
                    ));
                }
                assert(par_runs_ok(par_elem, runs@));
                assert(par_elem_ok(Node::Element(par_elem), self.paragraphs@[p as int]));
            }
            let ghost body_pre = body;
            body.append_element(par_elem);
            proof {
                assert forall|q: int|
                    0 <= q < p as int + 1 implies par_elem_ok(
                    #[trigger] body.inners@[q],
                    self.paragraphs@[q],
                ) by {
                    if q < p as int {
                        assert(body.inners@[q] == body_pre.inners@[q]);
                    }
                };
            }
            p += 1;
        }
        let sect_elem = process_sect_of_properties(&self.sect_properties);
        let ghost body_done = body;
        body.append_element(sect_elem);
        proof {
            assert(body.inners@[pn as int] == Node::Element(sect_elem));
            assert forall|q: int|
                0 <= q < pn as int implies par_elem_ok(
                #[trigger] body.inners@[q],
                self.paragraphs@[q],
            ) by {
                assert(body.inners@[q] == body_done.inners@[q]);
            };
        }
        let root = Element::new("w:document").with_attr(
            "xmlns:w",
            String::from_str("http://schemas.openxmlformats.org/wordprocessingml/2006/main"),
        ).with_element(body);
        WordXMLDocument {
            header: String::from_str("<?xml version=\"1.0\" encoding=\"UTF-8\" standalone=\"yes\"?>"),
            root,
        }
    }
}

} // verus!
