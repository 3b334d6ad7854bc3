//! The laid-out document: paragraphs of words and lines, pages, the
//! cursor, and the operations the presentation layer drives — relayout,
//! zoom and scroll, cursor movement, and the text edits.

use vstd::prelude::*;
use vstd::string::StringExecFns;

use crate::cursor::{Cursor, CursorPos, LineRelativePosition};
use crate::edit::{get_curr_line_len, get_cursor_target, CursorTargetIdx};
use crate::geometry::{Point, Rectangle, Size};
use crate::lines::{
    get_line_vertical_metrics, get_lines, get_words_sizes, update_line, Line, VerticalSpacing,
};
use crate::num::{cadd, clip, cmul, cmuldiv, csub, div_pos, in_range, MAX_COORD};
use crate::pages::{
    new_page_with_offset, page_top, pages_monotone, vertical_offset_and_push, LayoutCtx, Page,
    PageProperties,
};
use crate::primitives::{prim_rect, Primitive, PrimitiveProperties, MAX_DIM};
use crate::props::{
    props_eq_spec, Color, ParagraphProperties, SectrOfProperties, TextProperties,
};
use crate::word::{segs_of, GlyphsView, Word};

verus! {

/// Default inter-word spacing before scaling by a word's scale.
pub const DEFAULT_VERTICAL_SPACING: i64 = 1;

/// Default spacing above a paragraph.
pub const DEFAULT_SPACING_BEFORE: i64 = 20;

/// Default spacing below a paragraph.
pub const DEFAULT_SPACING_AFTER: i64 = 20;

/// Default font size in points.
pub const DEFAULT_FONT_SIZE: u32 = 12;

/// One paragraph: its properties, its words, and its derived lines.
#[derive(Debug)]
pub struct Paragraph {
    pub properties: ParagraphProperties,
    pub words: Vec<Word>,
    pub lines: Vec<Line>,
}

/// The whole laid-out document.
#[derive(Debug)]
pub struct DocumentDraw {
    pub paragraphs: Vec<Paragraph>,
    pub scroll: i64,
    pub scale: i64,
    pub pages: Vec<Page>,
    pub bg_color: Color,
    pub selection_color: Color,
    pub cursor: Cursor,
    pub cursor_prims: Vec<Primitive>,
    pub sect_properties: SectrOfProperties,
}

/// A command the presentation layer hands the document.
#[derive(Debug)]
pub enum DocumentCommand {
    NewScroll(i64),
    DeltaScroll(i64),
    NewScale(i64),
    RatioScale(i64),
    ChangeCharIdx(i64),
    ChangeLineIdx(i64),
    Remove,
    Add(String),
    AddSpace,
}

/// The two documents agree on everything except the cursor.
pub open spec fn same_but_cursor(a: DocumentDraw, b: DocumentDraw) -> bool {
    &&& a.paragraphs == b.paragraphs
    &&& a.scroll == b.scroll
    &&& a.scale == b.scale
    &&& a.pages == b.pages
    &&& a.bg_color == b.bg_color
    &&& a.selection_color == b.selection_color
    &&& a.cursor_prims == b.cursor_prims
    &&& a.sect_properties == b.sect_properties
}

/// The cursor with its position replaced, keeping its mode (a selection
/// keeps its start and moves its end).
pub open spec fn with_pos(c: Cursor, p: CursorPos) -> Cursor {
    match c {
        Cursor::View(_) => Cursor::View(p),
        Cursor::Normal(_) => Cursor::Normal(p),
        Cursor::Edit(_) => Cursor::Edit(p),
        Cursor::Select { start, .. } => Cursor::Select { start, end: p },
    }
}

impl Paragraph {
    /// Every word is well-formed, merged, and carries bounded metrics;
    /// the paragraph's spacing values are bounded too.
    pub open spec fn words_wf(self) -> bool {
        &&& forall|i: int|
            0 <= i < self.words@.len() ==> (#[trigger] self.words@[i]).wf()
                && self.words@[i].merged() && self.words@[i].metrics_wf()
        &&& self.properties.wf()
    }

    /// The lines partition the words.
    pub open spec fn lines_ok(self) -> bool {
        crate::lines::lines_partition(self.lines@, self.words@.len() as int)
    }
}

impl DocumentDraw {
    /// Structural well-formedness of the document's own state.
    pub open spec fn words_wf(self) -> bool {
        &&& forall|p: int|
            0 <= p < self.paragraphs@.len() ==> (#[trigger] self.paragraphs@[p]).words_wf()
        &&& 10 <= self.scale <= 200
        &&& in_range(self.scroll as int)
        &&& self.sect_properties.wf()
    }

    /// Every paragraph's lines partition its words.
    pub open spec fn lines_ok(self) -> bool {
        forall|p: int| 0 <= p < self.paragraphs@.len() ==> (#[trigger] self.paragraphs@[p]).lines_ok()
    }

    /// A fresh, empty document.
    pub fn new_empty() -> (r: DocumentDraw)
        ensures
            r.paragraphs@.len() == 0,
            r.words_wf(),
            r.lines_ok(),
            r.scroll == 100,
            r.scale == 100,
            r.pages@.len() == 0,
            r.cursor_prims@.len() == 0,
            r.cursor == Cursor::Normal(CursorPos { par_idx: 0, line_idx: 0, char_idx: 0 }),
    {
        DocumentDraw {
            paragraphs: Vec::new(),
            scroll: 100,
            scale: 100,
            pages: Vec::new(),
            bg_color: Color { r: 0, g: 0, b: 0, a: 255 },
            selection_color: Color { r: 0, g: 0, b: 0, a: 255 },
            cursor: Cursor::Normal(CursorPos { par_idx: 0, line_idx: 0, char_idx: 0 }),
            cursor_prims: Vec::new(),
            sect_properties: crate::props::SectrOfProperties {
                page_type: None,
                page_size: crate::props::PageSize { width: 1000, height: 1000 },
                page_margin: crate::props::PageMargin {
                    footer: 100,
                    gutter: 100,
                    header: 100,
                    bottom: 100,
                    left: 100,
                    right: 100,
                    top: 100,
                },
                page_num_type: None,
                form_prot: None,
                text_direction: crate::props::TextDirection::LeftToRightTopToBottom,
                document_grid: None,
            },
        }
    }

    /// The position the cursor currently occupies (a selection's end).
    pub fn get_cursor_pos(&self) -> (r: CursorPos)
        ensures
            r == self.cursor.spec_pos(),
    {
        match &self.cursor {
            Cursor::View(c) => *c,
            Cursor::Normal(c) => *c,
            Cursor::Edit(c) => *c,
            Cursor::Select { end, .. } => *end,
        }
    }

    /// Move the cursor's position, keeping its mode (a selection moves
    /// its end).
    pub fn set_cursor_pos(&mut self, p: CursorPos)
        ensures
            final(self).cursor.spec_pos() == p,
            same_but_cursor(*final(self), *old(self)),
            match old(self).cursor {
                Cursor::View(_) => final(self).cursor == Cursor::View(p),
                Cursor::Normal(_) => final(self).cursor == Cursor::Normal(p),
                Cursor::Edit(_) => final(self).cursor == Cursor::Edit(p),
                Cursor::Select { start, .. } => final(self).cursor == (Cursor::Select {
                    start,
                    end: p,
                }),
            },
    {
        let c = match &self.cursor {
            Cursor::View(_) => Cursor::View(p),
            Cursor::Normal(_) => Cursor::Normal(p),
            Cursor::Edit(_) => Cursor::Edit(p),
            Cursor::Select { start, .. } => Cursor::Select { start: *start, end: p },
        };
        self.cursor = c;
    }

    /// The unit length of the cursor's line, or zero when the cursor
    /// points outside the document.
    pub fn get_curr_line_len(&self) -> (r: usize)
        requires
            self.lines_ok(),
        ensures
            r as int == self.spec_line_len_at(self.cursor.spec_pos()),
    {
        let c = self.get_cursor_pos();
        if c.par_idx >= self.paragraphs.len() {
            return 0;
        }
        let par = &self.paragraphs[c.par_idx];
        if c.line_idx >= par.lines.len() {
            return 0;
        }
        let line = par.lines[c.line_idx];
        proof {
            assert(par.lines_ok());
            assert(crate::lines::lines_partition(par.lines@, par.words@.len() as int));
            crate::lines::lemma_line_range_in_bounds(par.lines@, par.words@.len() as int, c.line_idx as int);
        }
        get_curr_line_len(&par.words, line.range_start, line.range_end)
    }

    /// The number of lines of the cursor's paragraph (zero outside).
    pub fn get_curr_par_lines_len(&self) -> (r: usize)
        ensures
            r as int == self.spec_lines_len_at(self.cursor.spec_pos().par_idx as int),
    {
        let c = self.get_cursor_pos();
        if c.par_idx >= self.paragraphs.len() {
            return 0;
        }
        self.paragraphs[c.par_idx].lines.len()
    }

    /// The number of lines of paragraph `par` (zero outside the document).
    pub open spec fn spec_lines_len_at(self, par: int) -> int {
        if 0 <= par < self.paragraphs@.len() {
            self.paragraphs@[par].lines@.len() as int
        } else {
            0
        }
    }

    /// The unit length of the line a position names (zero outside).
    pub open spec fn spec_line_len_at(self, pos: CursorPos) -> int {
        if pos.par_idx < self.paragraphs@.len() && pos.line_idx < self.paragraphs@[
            pos.par_idx as int
        ].lines@.len() {
            let par = self.paragraphs@[pos.par_idx as int];
            let line = par.lines@[pos.line_idx as int];
            crate::edit::line_units(par.words@, line.range_start as int, line.range_end as int)
        } else {
            0
        }
    }

    /// Where a paragraph step lands: the paragraph index moves by
    /// `delta`, clamped to the document; line and grapheme stay.
    pub open spec fn spec_change_par(self, delta: int) -> CursorPos {
        let c = self.cursor.spec_pos();
        let n = self.paragraphs@.len() as int;
        let t = c.par_idx + delta;
        let np: int = if n == 0 {
            0
        } else if t < 0 {
            0
        } else if t > n - 1 {
            n - 1
        } else {
            t
        };
        CursorPos { par_idx: np as usize, line_idx: c.line_idx, char_idx: c.char_idx }
    }

    /// Where a line step lands: within the paragraph the line index
    /// moves by `delta`; stepping out at the top goes to the previous
    /// paragraph's last line, and at the bottom to the next paragraph's
    /// first line (clamped at the document's ends).
    pub open spec fn spec_change_line(self, delta: int) -> CursorPos {
        let c = self.cursor.spec_pos();
        let ll = self.spec_lines_len_at(c.par_idx as int);
        let t = c.line_idx + delta;
        if t < 0 {
            let p1 = self.spec_change_par(-1);
            let nl = self.spec_lines_len_at(p1.par_idx as int);
            CursorPos {
                par_idx: p1.par_idx,
                line_idx: (if nl > 0 {
                    nl - 1
                } else {
                    0
                }) as usize,
                char_idx: c.char_idx,
            }
        } else if ll == 0 || t >= ll {
            let p1 = self.spec_change_par(1);
            CursorPos { par_idx: p1.par_idx, line_idx: 0, char_idx: c.char_idx }
        } else {
            CursorPos { par_idx: c.par_idx, line_idx: t as usize, char_idx: c.char_idx }
        }
    }

    /// Where a grapheme step lands: within the line the offset moves by
    /// `delta`; stepping below zero goes to the previous line snapped to
    /// its end (its unit length), stepping past the line's length goes
    /// to the next line's start.
    pub open spec fn spec_change_char(self, delta: int) -> CursorPos {
        let c = self.cursor.spec_pos();
        let ln = self.spec_line_len_at(c);
        let t = c.char_idx + delta;
        if t < 0 {
            let p1 = self.spec_change_line(-1);
            let l1 = self.spec_line_len_at(p1);
            CursorPos { par_idx: p1.par_idx, line_idx: p1.line_idx, char_idx: l1 as usize }
        } else if ln == 0 || t >= ln {
            let p1 = self.spec_change_line(1);
            CursorPos { par_idx: p1.par_idx, line_idx: p1.line_idx, char_idx: 0 }
        } else {
            CursorPos { par_idx: c.par_idx, line_idx: c.line_idx, char_idx: t as usize }
        }
    }

    /// Move the cursor to an adjacent paragraph, clamped to the
    /// document's paragraphs.
    pub fn change_par(&mut self, par_delta: i64)
        ensures
            same_but_cursor(*final(self), *old(self)),
            final(self).cursor == with_pos(
                old(self).cursor,
                old(self).spec_change_par(par_delta as int),
            ),
    {
        let c = self.get_cursor_pos();
        let n = self.paragraphs.len();
        let t: i128 = c.par_idx as i128 + par_delta as i128;
        let new_par: usize = if n == 0 {
            0
        } else if t < 0 {
            0
        } else if t > (n - 1) as i128 {
            n - 1
        } else {
            t as usize
        };
        self.set_cursor_pos(
            CursorPos { par_idx: new_par, line_idx: c.line_idx, char_idx: c.char_idx },
        );
    }

    /// Move the cursor to an adjacent line; leaving the paragraph at
    /// either end steps to the neighbouring paragraph and snaps to its
    /// last or first line.
    pub fn change_line(&mut self, line_delta: i64)
        ensures
            same_but_cursor(*final(self), *old(self)),
            final(self).cursor == with_pos(
                old(self).cursor,
                old(self).spec_change_line(line_delta as int),
            ),
    {
        let c = self.get_cursor_pos();
        let lines_len = self.get_curr_par_lines_len();
        let t: i128 = c.line_idx as i128 + line_delta as i128;
        if t < 0 {
            self.change_par(-1);
            let new_len = self.get_curr_par_lines_len();
            let c2 = self.get_cursor_pos();
            let snap = if new_len > 0 {
                new_len - 1
            } else {
                0
            };
            self.set_cursor_pos(
                CursorPos { par_idx: c2.par_idx, line_idx: snap, char_idx: c2.char_idx },
            );
        } else if lines_len == 0 || t >= lines_len as i128 {
            self.change_par(1);
            let c2 = self.get_cursor_pos();
            self.set_cursor_pos(
                CursorPos { par_idx: c2.par_idx, line_idx: 0, char_idx: c2.char_idx },
            );
        } else {
            self.set_cursor_pos(
                CursorPos { par_idx: c.par_idx, line_idx: t as usize, char_idx: c.char_idx },
            );
        }
    }

    /// Move the cursor along the line; leaving the line at either end
    /// steps to the neighbouring line and snaps to its end (the line's
    /// unit length) or its start.
    pub fn change_char(&mut self, char_delta: i64)
        requires
            old(self).lines_ok(),
        ensures
            same_but_cursor(*final(self), *old(self)),
            final(self).lines_ok(),
            final(self).words_wf() == old(self).words_wf(),
            final(self).cursor == with_pos(
                old(self).cursor,
                old(self).spec_change_char(char_delta as int),
            ),
    {
        let c = self.get_cursor_pos();
        let line_len = self.get_curr_line_len();
        let t: i128 = c.char_idx as i128 + char_delta as i128;
        if t < 0 {
            self.change_line(-1);
            let new_len = self.get_curr_line_len();
            let c2 = self.get_cursor_pos();
            self.set_cursor_pos(
                CursorPos { par_idx: c2.par_idx, line_idx: c2.line_idx, char_idx: new_len },
            );
        } else if line_len == 0 || t >= line_len as i128 {
            self.change_line(1);
            let c2 = self.get_cursor_pos();
            self.set_cursor_pos(
                CursorPos { par_idx: c2.par_idx, line_idx: c2.line_idx, char_idx: 0 },
            );
        } else {
            self.set_cursor_pos(
                CursorPos { par_idx: c.par_idx, line_idx: c.line_idx, char_idx: t as usize },
            );
        }
    }
}

/// Everything `insert` promises: the outcome of inserting `data` at
/// the cursor target, the untouched remainder, and the rebuild list.
pub open spec fn insert_post(
    pre: DocumentDraw,
    post: DocumentDraw,
    data: Seq<char>,
    r: Seq<(usize, usize)>,
) -> bool {
    &&& (post.words_wf())
    &&& (post.lines_ok())
    &&& (same_but_cursor_and_paragraphs(post, pre))
    &&& (post.paragraphs@.len() == pre.paragraphs@.len())
    &&& (post.cursor == pre.cursor)
    &&& (forall|p: int|
                0 <= p < pre.paragraphs@.len() && p != pre.cursor.spec_pos().par_idx as int ==> post.paragraphs@[p] == pre.paragraphs@[p])
    &&& (r.len() <= 1)
    &&& (!pre.cursor_in_bounds() ==> post == pre && r.len() == 0)
    &&& (pre.cursor_in_bounds() ==> ({
                let cp = pre.cursor.spec_pos().par_idx as int;
                post.paragraphs@[cp].lines == pre.paragraphs@[cp].lines
                    && post.paragraphs@[cp].properties == pre.paragraphs@[cp].properties
            }))
    &&& (pre.cursor_in_bounds() ==> ({
                let c = pre.cursor.spec_pos();
                let par = pre.paragraphs@[c.par_idx as int];
                let line = par.lines@[c.line_idx as int];
                let off = line.range_start as int;
                let gs = crate::unicode::grapheme_split(data);
                let nwords = post.paragraphs@[c.par_idx as int].words@;
                match pre.spec_target() {
                    crate::edit::TargetV::Word { word, idx } => insert_outcome(
                        par.words@,
                        nwords,
                        off + word,
                        idx + 1,
                        gs,
                    ) && r == seq![(c.par_idx, (off + word) as usize)],
                    crate::edit::TargetV::Gap { next, .. } => {
                        if par.words@[off + next].text().len() > 0 {
                            insert_outcome(par.words@, nwords, off + next, 0, gs) && r == seq![
                                (c.par_idx, (off + next) as usize),
                            ]
                        } else {
                            post == pre && r.len() == 0
                        }
                    },
                    crate::edit::TargetV::LineEnd { end } => {
                        if par.words@[off + end].text().len() > 0 {
                            insert_outcome(
                                par.words@,
                                nwords,
                                off + end,
                                par.words@[off + end].text().len() as int,
                                gs,
                            ) && r == seq![(c.par_idx, (off + end) as usize)]
                        } else {
                            post == pre && r.len() == 0
                        }
                    },
                    crate::edit::TargetV::Nothing => post == pre && r.len()
                        == 0,
                }
            }))
}

/// Everything `remove` promises: the outcome of deleting one grapheme
/// at the cursor target, the untouched remainder, and the rebuild list.
pub open spec fn remove_post(pre: DocumentDraw, post: DocumentDraw, r: Seq<(usize, usize)>) -> bool {
    &&& (post.words_wf())
    &&& (same_but_cursor_and_paragraphs(post, pre))
    &&& (post.paragraphs@.len() == pre.paragraphs@.len())
    &&& (post.cursor == pre.cursor)
    &&& (forall|p: int|
                0 <= p < pre.paragraphs@.len() && p != pre.cursor.spec_pos().par_idx as int ==> post.paragraphs@[p] == pre.paragraphs@[p])
    &&& (r.len() <= 1)
    &&& (!pre.cursor_in_bounds() ==> post == pre && r.len() == 0)
    &&& (pre.cursor_in_bounds() ==> ({
                let cp = pre.cursor.spec_pos().par_idx as int;
                post.paragraphs@[cp].lines == pre.paragraphs@[cp].lines
                    && post.paragraphs@[cp].properties == pre.paragraphs@[cp].properties
            }))
    &&& (pre.cursor_in_bounds() ==> ({
                let c = pre.cursor.spec_pos();
                let par = pre.paragraphs@[c.par_idx as int];
                let line = par.lines@[c.line_idx as int];
                let off = line.range_start as int;
                let nwords = post.paragraphs@[c.par_idx as int].words@;
                match pre.spec_target() {
                    crate::edit::TargetV::Word { word, idx } => {
                        if par.words@[off + word].text().len() == 1 {
                            nwords == par.words@.remove(off + word) && r.len() == 0
                        } else {
                            shrink_outcome(par.words@, nwords, off + word, idx) && r == seq![
                                (c.par_idx, (off + word) as usize),
                            ]
                        }
                    },
                    crate::edit::TargetV::Gap { prev, .. } => {
                        if par.words@[off + prev].text().len() + par.words@[off + prev
                            + 1].text().len() <= usize::MAX {
                            merge_outcome(par.words@, nwords, off + prev) && r == seq![
                                (c.par_idx, (off + prev) as usize),
                            ]
                        } else {
                            post == pre && r.len() == 0
                        }
                    },
                    crate::edit::TargetV::LineEnd { end } => {
                        let wlen = par.words@[off + end].text().len() as int;
                        if wlen == 1 {
                            nwords == par.words@.remove(off + end) && r.len() == 0
                        } else if wlen > 1 {
                            shrink_outcome(par.words@, nwords, off + end, wlen - 1) && r
                                == seq![(c.par_idx, (off + end) as usize)]
                        } else {
                            post == pre && r.len() == 0
                        }
                    },
                    crate::edit::TargetV::Nothing => post == pre && r.len()
                        == 0,
                }
            }))
}

/// Everything `insert_space` promises: the split of the word under the
/// cursor, the untouched remainder, and the rebuild list.
pub open spec fn space_post(pre: DocumentDraw, post: DocumentDraw, r: Seq<(usize, usize)>) -> bool {
    &&& (post.words_wf())
    &&& (same_but_cursor_and_paragraphs(post, pre))
    &&& (post.paragraphs@.len() == pre.paragraphs@.len())
    &&& (post.cursor == pre.cursor)
    &&& (forall|p: int|
                0 <= p < pre.paragraphs@.len() && p != pre.cursor.spec_pos().par_idx as int ==> post.paragraphs@[p] == pre.paragraphs@[p])
    &&& (r.len() <= 2)
    &&& (!pre.cursor_in_bounds() ==> post == pre && r.len() == 0)
    &&& (pre.cursor_in_bounds() ==> ({
                let cp = pre.cursor.spec_pos().par_idx as int;
                post.paragraphs@[cp].lines == pre.paragraphs@[cp].lines
                    && post.paragraphs@[cp].properties == pre.paragraphs@[cp].properties
            }))
    &&& (pre.cursor_in_bounds() ==> ({
                let c = pre.cursor.spec_pos();
                let par = pre.paragraphs@[c.par_idx as int];
                let line = par.lines@[c.line_idx as int];
                let off = line.range_start as int;
                let nwords = post.paragraphs@[c.par_idx as int].words@;
                match pre.spec_target() {
                    crate::edit::TargetV::Word { word, idx } => split_outcome(
                        par.words@,
                        nwords,
                        off + word,
                        idx + 1,
                    ) && r == seq![
                        (c.par_idx, (off + word) as usize),
                        (c.par_idx, (off + word + 1) as usize),
                    ],
                    _ => post == pre && r.len() == 0,
                }
            }))
}

impl DocumentDraw {
    /// The cursor names an existing paragraph and line.
    pub open spec fn cursor_in_bounds(self) -> bool {
        let c = self.cursor.spec_pos();
        &&& c.par_idx < self.paragraphs@.len()
        &&& c.line_idx < self.paragraphs@[c.par_idx as int].lines@.len()
    }

    /// The ghost target the cursor's line-relative offset resolves to.
    pub open spec fn spec_target(self) -> crate::edit::TargetV {
        let c = self.cursor.spec_pos();
        let par = self.paragraphs@[c.par_idx as int];
        let line = par.lines@[c.line_idx as int];
        crate::edit::locate_from(
            par.words@,
            line.range_start as int,
            line.range_end as int,
            0,
            c.char_idx as int,
        )
    }

    /// Splice text at the cursor.  Inside a word the text lands after the
    /// cursor's grapheme; on an inter-word gap it is prepended to the
    /// following word; at the line end it is appended to the last word.
    /// Returns the `(paragraph, word)` pairs whose glyphs must be rebuilt;
    /// a cursor outside the laid-out document does nothing.
    pub fn insert(&mut self, data: String) -> (r: Vec<(usize, usize)>)
        requires
            old(self).words_wf(),
            old(self).lines_ok(),
        ensures
            insert_post(*old(self), *final(self), data@, r@),

    {
        let c = self.get_cursor_pos();
        if c.par_idx >= self.paragraphs.len() {
            return Vec::new();
        }
        let lines_len = self.paragraphs[c.par_idx].lines.len();
        if c.line_idx >= lines_len {
            return Vec::new();
        }
        let line = self.paragraphs[c.par_idx].lines[c.line_idx];
        proof {
            assert(self.paragraphs@[c.par_idx as int].lines_ok());
            crate::lines::lemma_line_range_in_bounds(
                self.paragraphs@[c.par_idx as int].lines@,
                self.paragraphs@[c.par_idx as int].words@.len() as int,
                c.line_idx as int,
            );
            crate::edit::lemma_locate_bounds(
                self.paragraphs@[c.par_idx as int].words@,
                line.range_start as int,
                line.range_end as int,
                0,
                c.char_idx as int,
            );
        }
        let offset = line.range_start;
        let target = get_cursor_target(
            &self.paragraphs[c.par_idx].words,
            line.range_start,
            line.range_end,
            c.char_idx,
        );
        let mut r: Vec<(usize, usize)> = Vec::new();
        match target {
            CursorTargetIdx::WordTarget { word, idx } => {
                let wi = if offset > usize::MAX - word {
                    usize::MAX
                } else {
                    offset + word
                };
                let words_len = self.paragraphs[c.par_idx].words.len();
                if wi < words_len {
                    let wlen = self.paragraphs[c.par_idx].words[wi].word.len();
                    if wlen > 0 && idx < wlen {
                        let gs = crate::unicode::graphemes_of(data.as_str());
                        self.paragraphs[c.par_idx].words[wi].insert_graphemes(idx + 1, gs);
                        r.push((c.par_idx, wi));
                    }
                }
            },
            CursorTargetIdx::WhiteSpace { next, .. } => {
                let wi = if offset > usize::MAX - next {
                    usize::MAX
                } else {
                    offset + next
                };
                let words_len = self.paragraphs[c.par_idx].words.len();
                if wi < words_len {
                    let wlen = self.paragraphs[c.par_idx].words[wi].word.len();
                    if wlen > 0 {
                        let gs = crate::unicode::graphemes_of(data.as_str());
                        self.paragraphs[c.par_idx].words[wi].insert_graphemes(0, gs);
                        r.push((c.par_idx, wi));
                    }
                }
            },
            CursorTargetIdx::LineEnd { end } => {
                let wi = if offset > usize::MAX - end {
                    usize::MAX
                } else {
                    offset + end
                };
                let words_len = self.paragraphs[c.par_idx].words.len();
                if wi < words_len {
                    let wlen = self.paragraphs[c.par_idx].words[wi].word.len();
                    if wlen > 0 {
                        let gs = crate::unicode::graphemes_of(data.as_str());
                        self.paragraphs[c.par_idx].words[wi].insert_graphemes(wlen, gs);
                        r.push((c.par_idx, wi));
                    }
                }
            },
            CursorTargetIdx::Nothing => {},
        }
        r
    }

    /// Delete at the cursor, with backspace semantics.  Inside a word the
    /// cursor's grapheme goes (a single-grapheme word disappears whole);
    /// on a gap the two neighbouring words merge; at the line end the
    /// last word loses its final grapheme.  Equal-style segment
    /// neighbours re-merge.  Returns the pairs to rebuild.
    pub fn remove(&mut self) -> (r: Vec<(usize, usize)>)
        requires
            old(self).words_wf(),
            old(self).lines_ok(),
        ensures
            remove_post(*old(self), *final(self), r@),

    {
        let c = self.get_cursor_pos();
        if c.par_idx >= self.paragraphs.len() {
            return Vec::new();
        }
        let lines_len = self.paragraphs[c.par_idx].lines.len();
        if c.line_idx >= lines_len {
            return Vec::new();
        }
        let line = self.paragraphs[c.par_idx].lines[c.line_idx];
        proof {
            assert(self.paragraphs@[c.par_idx as int].lines_ok());
            crate::lines::lemma_line_range_in_bounds(
                self.paragraphs@[c.par_idx as int].lines@,
                self.paragraphs@[c.par_idx as int].words@.len() as int,
                c.line_idx as int,
            );
            crate::edit::lemma_locate_bounds(
                self.paragraphs@[c.par_idx as int].words@,
                line.range_start as int,
                line.range_end as int,
                0,
                c.char_idx as int,
            );
        }
        let offset = line.range_start;
        let target = get_cursor_target(
            &self.paragraphs[c.par_idx].words,
            line.range_start,
            line.range_end,
            c.char_idx,
        );
        let mut r: Vec<(usize, usize)> = Vec::new();
        match target {
            CursorTargetIdx::WordTarget { word, idx } => {
                let wi = if offset > usize::MAX - word {
                    usize::MAX
                } else {
                    offset + word
                };
                let words_len = self.paragraphs[c.par_idx].words.len();
                if wi < words_len {
                    let wlen = self.paragraphs[c.par_idx].words[wi].word.len();
                    if wlen == 1 {
                        let _removed = self.paragraphs[c.par_idx].words.remove(wi);
                    } else if idx < wlen {
                        self.paragraphs[c.par_idx].words[wi].remove_grapheme(idx);
                        r.push((c.par_idx, wi));
                    }
                }
            },
            CursorTargetIdx::WhiteSpace { prev, next } => {
                let pi = if offset > usize::MAX - prev {
                    usize::MAX
                } else {
                    offset + prev
                };
                let ni = if offset > usize::MAX - next {
                    usize::MAX
                } else {
                    offset + next
                };
                let words_len = self.paragraphs[c.par_idx].words.len();
                if pi < ni && ni < words_len {
                    let plen = self.paragraphs[c.par_idx].words[pi].word.len();
                    let nlen = self.paragraphs[c.par_idx].words[ni].word.len();
                    if plen <= usize::MAX - nlen {
                        let next_word = self.paragraphs[c.par_idx].words.remove(ni);
                        self.paragraphs[c.par_idx].words[pi].merge_with(&next_word);
                        r.push((c.par_idx, pi));
                    }
                }
            },
            CursorTargetIdx::LineEnd { end } => {
                let wi = if offset > usize::MAX - end {
                    usize::MAX
                } else {
                    offset + end
                };
                let words_len = self.paragraphs[c.par_idx].words.len();
                if wi < words_len {
                    let wlen = self.paragraphs[c.par_idx].words[wi].word.len();
                    if wlen == 1 {
                        let _removed = self.paragraphs[c.par_idx].words.remove(wi);
                    } else if wlen > 1 {
                        self.paragraphs[c.par_idx].words[wi].remove_grapheme(wlen - 1);
                        r.push((c.par_idx, wi));
                    }
                }
            },
            CursorTargetIdx::Nothing => {},
        }
        r
    }

    /// Split the word under the cursor into two words after the cursor's
    /// grapheme; a straddling style segment is split with it.  Other
    /// targets do nothing.  Returns the pairs to rebuild.
    pub fn insert_space(&mut self) -> (r: Vec<(usize, usize)>)
        requires
            old(self).words_wf(),
            old(self).lines_ok(),
        ensures
            space_post(*old(self), *final(self), r@),

    {
        let c = self.get_cursor_pos();
        if c.par_idx >= self.paragraphs.len() {
            return Vec::new();
        }
        let lines_len = self.paragraphs[c.par_idx].lines.len();
        if c.line_idx >= lines_len {
            return Vec::new();
        }
        let line = self.paragraphs[c.par_idx].lines[c.line_idx];
        proof {
            assert(self.paragraphs@[c.par_idx as int].lines_ok());
            crate::lines::lemma_line_range_in_bounds(
                self.paragraphs@[c.par_idx as int].lines@,
                self.paragraphs@[c.par_idx as int].words@.len() as int,
                c.line_idx as int,
            );
            crate::edit::lemma_locate_bounds(
                self.paragraphs@[c.par_idx as int].words@,
                line.range_start as int,
                line.range_end as int,
                0,
                c.char_idx as int,
            );
        }
        let offset = line.range_start;
        let target = get_cursor_target(
            &self.paragraphs[c.par_idx].words,
            line.range_start,
            line.range_end,
            c.char_idx,
        );
        let mut r: Vec<(usize, usize)> = Vec::new();
        match target {
            CursorTargetIdx::WordTarget { word, idx } => {
                let wi = if offset > usize::MAX - word {
                    usize::MAX
                } else {
                    offset + word
                };
                let words_len = self.paragraphs[c.par_idx].words.len();
                if wi < words_len {
                    let wlen = self.paragraphs[c.par_idx].words[wi].word.len();
                    if idx < wlen && wlen >= 1 {
                        let new_word = self.paragraphs[c.par_idx].words[wi].split_at(idx + 1);
                        if wi < usize::MAX {
                            self.paragraphs[c.par_idx].words.insert(wi + 1, new_word);
                            r.push((c.par_idx, wi));
                            r.push((c.par_idx, wi + 1));
                            proof {
                                assert(r@ =~= seq![(c.par_idx, wi), (c.par_idx, (wi + 1) as usize)]);
                            }
                        }
                    }
                }
            },
            CursorTargetIdx::WhiteSpace { .. } => {},
            CursorTargetIdx::LineEnd { .. } => {},
            CursorTargetIdx::Nothing => {},
        }
        r
    }
}

/// A coordinate clamped into the modelled range, then divided by the
/// ratio `num / den` (truncating).
pub open spec fn spec_descaled(v: int, num: int, den: int) -> int {
    let c = if v < -MAX_COORD as int {
        -MAX_COORD as int
    } else if v > MAX_COORD as int {
        MAX_COORD as int
    } else {
        v
    };
    clip(crate::num::tdiv(c * den, num))
}

/// The line with every cached metric divided by `num / den`.
pub open spec fn spec_line_descaled(l: Line, num: int, den: int) -> Line {
    Line {
        height: spec_descaled(l.height as int, num, den) as i64,
        min_width: spec_descaled(l.min_width as int, num, den) as i64,
        width_with_spacing: spec_descaled(l.width_with_spacing as int, num, den) as i64,
        last_scale: spec_descaled(l.last_scale as int, num, den) as i64,
        range_start: l.range_start,
        range_end: l.range_end,
    }
}

/// The word with every glyph primitive re-scaled by `num / den` and
/// everything else unchanged.
pub open spec fn word_rescaled(ow: Word, nw: Word, num: int, den: int) -> bool {
    &&& nw.word@ == ow.word@
    &&& nw.segs() == ow.segs()
    &&& nw.metrics_wf()
    &&& nw.glyphs_views@.len() == ow.glyphs_views@.len()
    &&& forall|g: int|
        0 <= g < ow.glyphs_views@.len() ==> ({
            let og = ow.glyphs_views@[g];
            let ng = (#[trigger] nw.glyphs_views@[g]);
            &&& ng.start == og.start
            &&& ng.end == og.end
            &&& ng.properties == og.properties
            &&& crate::primitives::rescaled(
                og.primitive.prop,
                ng.primitive.prop,
                num,
                den,
            )
        })
}

/// The glyph primitives of one word, in segment order.
pub open spec fn word_prims(w: Word) -> Seq<Primitive> {
    w.glyphs_views@.map_values(|g: GlyphsView| g.primitive)
}

/// The glyph primitives of a word list, word by word.
pub open spec fn flatten_word_prims(ws: Seq<Word>) -> Seq<Primitive> {
    ws.map_values(|w: Word| word_prims(w)).flatten()
}

/// The glyph primitives of one paragraph.
pub open spec fn par_prims(p: Paragraph) -> Seq<Primitive> {
    flatten_word_prims(p.words@)
}

/// The glyph primitives of all paragraphs, in order.
pub open spec fn glyph_prims(ps: Seq<Paragraph>) -> Seq<Primitive> {
    ps.map_values(|p: Paragraph| par_prims(p)).flatten()
}

/// Every primitive of a document in draw order: page backgrounds, then
/// cursor highlights, then the glyph primitives paragraph by paragraph.
pub open spec fn prims_model(doc: DocumentDraw) -> Seq<Primitive> {
    doc.pages@.map_values(|p: Page| p.primitive) + doc.cursor_prims@ + glyph_prims(
        doc.paragraphs@,
    )
}

/// The words that survive cleanup: the ones with nonempty text, in order.
#[verifier::opaque]
pub open spec fn drop_empty_words(ws: Seq<Word>) -> Seq<Word>
    decreases ws.len(),
{
    if ws.len() == 0 {
        ws
    } else {
        let m = drop_empty_words(ws.drop_last());
        if ws.last().text().len() > 0 {
            m.push(ws.last())
        } else {
            m
        }
    }
}

/// One unfolding step of `drop_empty_words` over a prefix.
proof fn lemma_drop_words_snoc(ws: Seq<Word>, k: int)
    requires
        0 <= k < ws.len(),
    ensures
        drop_empty_words(ws.take(k + 1)) == if ws[k].text().len() > 0 {
            drop_empty_words(ws.take(k)).push(ws[k])
        } else {
            drop_empty_words(ws.take(k))
        },
{
    reveal_with_fuel(drop_empty_words, 2);
    assert(ws.take(k + 1).drop_last() =~= ws.take(k));
    assert(ws.take(k + 1).last() == ws[k]);
}

/// The positions of the paragraphs that survive cleanup (those holding
/// at least one word), in order.
#[verifier::opaque]
pub open spec fn kept_par_idxs(ps: Seq<Paragraph>) -> Seq<int>
    decreases ps.len(),
{
    if ps.len() == 0 {
        Seq::<int>::empty()
    } else {
        let m = kept_par_idxs(ps.drop_last());
        if ps.last().words@.len() > 0 {
            m.push(ps.len() - 1)
        } else {
            m
        }
    }
}

/// One unfolding step of `kept_par_idxs` over a prefix.
proof fn lemma_kept_snoc(ps: Seq<Paragraph>, k: int)
    requires
        0 <= k < ps.len(),
    ensures
        kept_par_idxs(ps.take(k + 1)) == if ps[k].words@.len() > 0 {
            kept_par_idxs(ps.take(k)).push(k)
        } else {
            kept_par_idxs(ps.take(k))
        },
{
    reveal_with_fuel(kept_par_idxs, 2);
    assert(ps.take(k + 1).drop_last() =~= ps.take(k));
    assert(ps.take(k + 1).last() == ps[k]);
}

/// The paragraph with its words re-scaled and its line metrics divided
/// by `num / den`; its properties are unchanged.
pub open spec fn par_rescaled(op: Paragraph, np: Paragraph, num: int, den: int) -> bool {
    &&& np.properties == op.properties
    &&& np.words@.len() == op.words@.len()
    &&& forall|w: int|
        0 <= w < op.words@.len() ==> word_rescaled(op.words@[w], #[trigger] np.words@[w], num, den)
    &&& np.lines@.len() == op.lines@.len()
    &&& forall|l: int|
        0 <= l < op.lines@.len() ==> (#[trigger] np.lines@[l]) == spec_line_descaled(
            op.lines@[l],
            num,
            den,
        )
}

/// The two documents agree on everything except the cursor and the
/// paragraphs.
pub open spec fn same_but_cursor_and_paragraphs(a: DocumentDraw, b: DocumentDraw) -> bool {
    &&& a.scroll == b.scroll
    &&& a.scale == b.scale
    &&& a.pages == b.pages
    &&& a.bg_color == b.bg_color
    &&& a.selection_color == b.selection_color
    &&& a.cursor_prims == b.cursor_prims
    &&& a.sect_properties == b.sect_properties
}

/// Inserting graphemes `gs` at grapheme position `p` of word `wi`
/// rewrote exactly that word: its text and segments are the insertion's
/// results, and every other word is untouched.
pub open spec fn insert_outcome(
    owords: Seq<Word>,
    nwords: Seq<Word>,
    wi: int,
    p: int,
    gs: Seq<Seq<char>>,
) -> bool {
    &&& nwords.len() == owords.len()
    &&& 0 <= wi < owords.len()
    &&& nwords[wi].text() == crate::edit::spec_insert_text(owords[wi].text(), p, gs)
    &&& nwords[wi].segs() == crate::edit::spec_insert_segs(owords[wi].segs(), p, gs.len() as int)
    &&& forall|w: int| 0 <= w < owords.len() && w != wi ==> nwords[w] == owords[w]
}

/// Deleting the grapheme at `idx` of word `wi` rewrote exactly that
/// word (its segments re-merged); every other word is untouched.
pub open spec fn shrink_outcome(owords: Seq<Word>, nwords: Seq<Word>, wi: int, idx: int) -> bool {
    &&& nwords.len() == owords.len()
    &&& 0 <= wi < owords.len()
    &&& nwords[wi].text() == crate::edit::spec_remove_text(owords[wi].text(), idx)
    &&& nwords[wi].segs() == crate::word::merge_segs(
        crate::edit::shrink_segs(owords[wi].segs(), idx),
    )
    &&& forall|w: int| 0 <= w < owords.len() && w != wi ==> nwords[w] == owords[w]
}

/// Word `wi + 1` was folded into word `wi`: the merged word carries both
/// texts and the re-based, re-merged segments; later words shift left.
pub open spec fn merge_outcome(owords: Seq<Word>, nwords: Seq<Word>, pi: int) -> bool {
    &&& nwords.len() == owords.len() - 1
    &&& 0 <= pi
    &&& pi + 1 < owords.len()
    &&& nwords[pi].text() == owords[pi].text() + owords[pi + 1].text()
    &&& nwords[pi].segs() == crate::word::merge_segs(
        owords[pi].segs() + crate::edit::shift_segs(
            owords[pi + 1].segs(),
            owords[pi].text().len() as int,
        ),
    )
    &&& forall|w: int| 0 <= w < pi ==> nwords[w] == owords[w]
    &&& forall|w: int| pi < w < nwords.len() ==> nwords[w] == owords[w + 1]
}

/// Word `wi` was split after grapheme position `p - 1`: it keeps the
/// first `p` graphemes and a new word holding the rest follows it; a
/// straddling segment is split between the halves.
pub open spec fn split_outcome(owords: Seq<Word>, nwords: Seq<Word>, wi: int, p: int) -> bool {
    &&& nwords.len() == owords.len() + 1
    &&& 0 <= wi < owords.len()
    &&& nwords[wi].text() == owords[wi].text().take(p)
    &&& nwords[wi + 1].text() == owords[wi].text().skip(p)
    &&& nwords[wi].segs() == crate::edit::left_segs(owords[wi].segs(), p)
    &&& nwords[wi + 1].segs() == crate::edit::right_segs(owords[wi].segs(), p)
    &&& forall|w: int| 0 <= w < wi ==> nwords[w] == owords[w]
    &&& forall|w: int| wi + 1 < w < nwords.len() ==> nwords[w] == owords[w - 1]
}

/// The text of the graphemes `[s, e)`, concatenated.
#[verifier::opaque]
pub open spec fn flatten_range(text: Seq<Seq<char>>, s: int, e: int) -> Seq<char>
    decreases e - s,
{
    if e <= s {
        Seq::<char>::empty()
    } else {
        flatten_range(text, s, e - 1) + text[e - 1]
    }
}

/// Adjacent grapheme ranges concatenate.
pub proof fn lemma_flatten_range_app(text: Seq<Seq<char>>, a: int, b: int, c: int)
    requires
        a <= b <= c,
    ensures
        flatten_range(text, a, b) + flatten_range(text, b, c) == flatten_range(text, a, c),
    decreases c - b,
{
    reveal_with_fuel(flatten_range, 2);
    if b == c {
        assert(flatten_range(text, a, b) + flatten_range(text, b, c) =~= flatten_range(
            text,
            a,
            c,
        ));
    } else {
        lemma_flatten_range_app(text, a, b, c - 1);
        assert(flatten_range(text, a, b) + flatten_range(text, b, c) =~= (flatten_range(
            text,
            a,
            b,
        ) + flatten_range(text, b, c - 1)) + text[c - 1]);
    }
}

/// A range of nonempty graphemes flattens to nonempty text.
pub proof fn lemma_flatten_range_nonempty(text: Seq<Seq<char>>, a: int, b: int)
    requires
        a < b,
        forall|i: int| a <= i < b ==> (#[trigger] text[i]).len() > 0,
    ensures
        flatten_range(text, a, b).len() > 0,
{
    reveal_with_fuel(flatten_range, 2);
}

/// One unfolding step of `flatten_range`.
pub proof fn lemma_flatten_range_snoc(text: Seq<Seq<char>>, s: int, e: int)
    requires
        s <= e,
    ensures
        flatten_range(text, s, e + 1) == flatten_range(text, s, e) + text[e],
{
    reveal_with_fuel(flatten_range, 2);
}

/// Concatenate the graphemes `[start, end)` of a word's text.
pub fn join_graphemes(word: &Vec<String>, start: usize, end: usize) -> (r: String)
    requires
        start <= end,
        end as int <= word@.len(),
    ensures
        r@ == flatten_range(word@.map_values(|g: String| g@), start as int, end as int),
{
    let mut out = String::new();
    let mut k = start;
    proof {
        reveal_with_fuel(flatten_range, 1);
    }
    while k < end
        invariant
            start <= k <= end,
            end as int <= word@.len(),
            out@ == flatten_range(word@.map_values(|g: String| g@), start as int, k as int),
        decreases end - k,
    {
        proof {
            lemma_flatten_range_snoc(
                word@.map_values(|g: String| g@),
                start as int,
                k as int,
            );
        }
        out.append(word[k].as_str());
        k += 1;
    }
    out
}

/// The color a segment renders with: its own, else the paragraph's, else
/// opaque black.
pub open spec fn spec_eff_color(gv: TextProperties, par: TextProperties) -> Color {
    match gv.color {
        Some(c) => c,
        None => match par.color {
            Some(c) => c,
            None => Color { r: 0, g: 0, b: 0, a: 255 },
        },
    }
}

/// The size (in points) a segment renders with: its own, else the
/// paragraph's, else the default.
pub open spec fn spec_eff_points(gv: TextProperties, par: TextProperties) -> int {
    match gv.size {
        Some(ts) => ts.0 as int / 2,
        None => match par.size {
            Some(ts) => ts.0 as int / 2,
            None => DEFAULT_FONT_SIZE as int,
        },
    }
}

/// The pixel scale a segment is rasterised at: the zoom percentage times
/// twice the effective point size.
pub open spec fn spec_px_scale(scale: int, pts: int) -> int {
    crate::num::tdiv(scale * 2 * pts, 100)
}

/// A run-property size small enough for the pixel-scale arithmetic.
pub open spec fn tp_size_wf(tp: TextProperties) -> bool {
    match tp.size {
        Some(ts) => ts.0 <= 0xffff,
        None => true,
    }
}

impl DocumentDraw {
    /// Rebuild one word's text primitives from measured sizes, one per
    /// style segment (`None` marks a segment whose font failed to
    /// resolve: it is left absent and contributes nothing).  Each text
    /// primitive carries the segment's text, its effective color, its
    /// measured size and the pixel scale it was measured at.
    pub fn create_word_prim(
        word: &mut Word,
        sizes: &Vec<Option<Size>>,
        paragraph_tp: &TextProperties,
        scale: i64,
    )
        requires
            old(word).wf(),
            sizes@.len() == old(word).glyphs_views@.len(),
            forall|i: int|
                0 <= i < sizes@.len() ==> ((#[trigger] sizes@[i]) matches Some(sz) ==> 0
                    <= sz.width <= MAX_DIM && 0 <= sz.height <= MAX_DIM),
            10 <= scale <= 200,
            tp_size_wf(*paragraph_tp),
            forall|i: int|
                0 <= i < old(word).glyphs_views@.len() ==> tp_size_wf(
                    (#[trigger] old(word).glyphs_views@[i]).properties,
                ),
        ensures
            final(word).word@ == old(word).word@,
            final(word).text() == old(word).text(),
            final(word).segs() == old(word).segs(),
            final(word).wf(),
            old(word).merged() ==> final(word).merged(),
            final(word).metrics_wf(),
            final(word).glyphs_views@.len() == old(word).glyphs_views@.len(),
            forall|i: int|
                0 <= i < final(word).glyphs_views@.len() ==> ({
                    let og = old(word).glyphs_views@[i];
                    let ng = (#[trigger] final(word).glyphs_views@[i]);
                    match sizes@[i] {
                        Some(sz) => ng.primitive.prop
                            matches crate::primitives::PrimitiveProperties::PlainText(pt)
                            && pt.size == sz && pt.left_top == (Point { x: 0, y: 0 })
                            && pt.color == spec_eff_color(og.properties, *paragraph_tp)
                            && pt.scale as int == spec_px_scale(
                            scale as int,
                            spec_eff_points(og.properties, *paragraph_tp),
                        ) && pt.content@ == flatten_range(
                            old(word).text(),
                            og.start as int,
                            og.end as int,
                        ),
                        None => ng.primitive.prop is Empty,
                    }
                }),
    {
        let n = word.glyphs_views.len();
        let mut j: usize = 0;
        while j < n
            invariant
                j <= n,
                n == old(word).glyphs_views@.len(),
                word.word@ == old(word).word@,
                word.glyphs_views@.len() == n,
                sizes@.len() == n,
                10 <= scale <= 200,
                tp_size_wf(*paragraph_tp),
                old(word).wf(),
                forall|i: int|
                    0 <= i < n ==> ((#[trigger] sizes@[i]) matches Some(sz) ==> 0 <= sz.width
                        <= MAX_DIM && 0 <= sz.height <= MAX_DIM),
                forall|i: int|
                    0 <= i < n ==> tp_size_wf((#[trigger] old(word).glyphs_views@[i]).properties),
                forall|i: int|
                    0 <= i < n ==> ({
                        let og = old(word).glyphs_views@[i];
                        let ng = (#[trigger] word.glyphs_views@[i]);
                        ng.start == og.start && ng.end == og.end && ng.properties == og.properties
                    }),
                forall|i: int|
                    j <= i < n ==> (#[trigger] word.glyphs_views@[i]).primitive == old(
                        word,
                    ).glyphs_views@[i].primitive,
                forall|i: int|
                    0 <= i < j ==> ({
                        let og = old(word).glyphs_views@[i];
                        let ng = (#[trigger] word.glyphs_views@[i]);
                        &&& ng.primitive.metric_wf()
                        &&& match sizes@[i] {
                            Some(sz) => ng.primitive.prop
                                matches crate::primitives::PrimitiveProperties::PlainText(pt)
                                && pt.size == sz && pt.left_top == (Point { x: 0, y: 0 })
                                && pt.color == spec_eff_color(og.properties, *paragraph_tp)
                                && pt.scale as int == spec_px_scale(
                                scale as int,
                                spec_eff_points(og.properties, *paragraph_tp),
                            ) && pt.content@ == flatten_range(
                                old(word).text(),
                                og.start as int,
                                og.end as int,
                            ),
                            None => ng.primitive.prop is Empty,
                        }
                    }),
            decreases n - j,
        {
            let sz = sizes[j];
            match sz {
                Some(sz) => {
                    let gs = word.glyphs_views[j].start;
                    let ge = word.glyphs_views[j].end;
                    proof {
                        assert(old(word).segs()[j as int].start < old(word).segs()[j as int].end);
                        if (j as int) < old(word).segs().len() - 1 {
                            crate::word::lemma_segs_monotone_pub(
                                *old(word),
                                j as int,
                                old(word).segs().len() - 1,
                            );
                            assert(old(word).segs().last().start < old(word).segs().last().end);
                        }
                        assert(old(word).segs()[j as int].end <= old(word).text().len());
                    }
                    let content = join_graphemes(&word.word, gs, ge);
                    let points: u32 = match &word.glyphs_views[j].properties.size {
                        Some(ts) => ts.0 / 2,
                        None => match &paragraph_tp.size {
                            Some(ts) => ts.0 / 2,
                            None => DEFAULT_FONT_SIZE,
                        },
                    };
                    let color = match &word.glyphs_views[j].properties.color {
                        Some(c) => *c,
                        None => match &paragraph_tp.color {
                            Some(c) => *c,
                            None => Color { r: 0, g: 0, b: 0, a: 255 },
                        },
                    };
                    let px = crate::num::div_pos(cmul(scale, 2 * points as i64), 100);
                    proof {
                        assert(2 * points as i64 <= 0x1_0000);
                        assert(clip(scale as int * (2 * points as int)) == scale as int * 2
                            * (points as int)) by (nonlinear_arith)
                            requires
                                10 <= scale <= 200,
                                0 <= points <= 0x8000,
                        ;
                        assert(0 <= px as int <= MAX_DIM as int) by (nonlinear_arith)
                            requires
                                px as int == crate::num::tdiv(
                                    scale as int * 2 * (points as int),
                                    100,
                                ),
                                10 <= scale <= 200,
                                0 <= points <= 0x8000,
                                MAX_DIM == 0xffff_ffff,
                        ;
                    }
                    word.glyphs_views[j].primitive = Primitive {
                        prop: PrimitiveProperties::PlainText(
                            crate::primitives::PlainTextProperties {
                                left_top: Point { x: 0, y: 0 },
                                content,
                                color,
                                size: sz,
                                scale: px,
                            },
                        ),
                    };
                },
                None => {
                    word.glyphs_views[j].primitive = Primitive {
                        prop: PrimitiveProperties::Empty,
                    };
                },
            }
            j += 1;
        }
        proof {
            assert(word.segs() =~= old(word).segs());
        }
    }

    /// Drop paragraphs that hold no words, then drop words that hold no
    /// graphemes: the survivors are exactly the old content in order,
    /// each kept paragraph keeping its properties and lines and its
    /// nonempty words.  Lines become stale; the caller relays out.
    pub fn clear_document(&mut self)
        requires
            old(self).words_wf(),
        ensures
            final(self).words_wf(),
            same_but_cursor_and_paragraphs(*final(self), *old(self)),
            final(self).cursor == old(self).cursor,
            final(self).paragraphs@.len() == kept_par_idxs(old(self).paragraphs@).len(),
            forall|k: int|
                0 <= k < final(self).paragraphs@.len() ==> ({
                    let j = kept_par_idxs(old(self).paragraphs@)[k];
                    let op = old(self).paragraphs@[j];
                    let np = (#[trigger] final(self).paragraphs@[k]);
                    &&& np.properties == op.properties
                    &&& np.lines == op.lines
                    &&& np.words@ == drop_empty_words(op.words@)
                }),
            forall|p: int|
                0 <= p < final(self).paragraphs@.len() ==> forall|w: int|
                    0 <= w < (#[trigger] final(self).paragraphs@[p]).words@.len() ==> (
                    #[trigger] final(self).paragraphs@[p].words@[w]).text().len() > 0,
    {
        let ghost orig = self.paragraphs@;
        let mut kept: Vec<Paragraph> = Vec::new();
        let pn = self.paragraphs.len();
        let mut p: usize = 0;
        proof {
            reveal_with_fuel(kept_par_idxs, 1);
            assert(orig.take(0) =~= Seq::<Paragraph>::empty());
        }
        while p < pn
            invariant
                p <= pn,
                pn == orig.len(),
                old(self).words_wf(),
                self.paragraphs@ == orig.skip(p as int),
                same_but_cursor_and_paragraphs(*self, *old(self)),
                self.cursor == old(self).cursor,
                orig == old(self).paragraphs@,
                kept@.len() == kept_par_idxs(orig.take(p as int)).len(),
                forall|k: int|
                    0 <= k < kept@.len() ==> ({
                        let j = kept_par_idxs(orig.take(p as int))[k];
                        0 <= j < orig.len() && ({
                            let op = orig[j];
                            let np = (#[trigger] kept@[k]);
                            &&& np.properties == op.properties
                            &&& np.lines == op.lines
                            &&& np.words@ == drop_empty_words(op.words@)
                        })
                    }),
                forall|k: int| 0 <= k < kept@.len() ==> (#[trigger] kept@[k]).words_wf(),
                forall|k: int|
                    0 <= k < kept@.len() ==> forall|w: int|
                        0 <= w < (#[trigger] kept@[k]).words@.len() ==> (
                        #[trigger] kept@[k].words@[w]).text().len() > 0,
            decreases pn - p,
        {
            proof {
                lemma_kept_snoc(orig, p as int);
                assert(orig.skip(p as int)[0] == orig[p as int]);
            }
            let mut par = self.paragraphs.remove(0);
            proof {
                assert(self.paragraphs@ =~= orig.skip(p as int + 1));
                assert(par == orig[p as int]);
            }
            if par.words.len() > 0 {
                let ghost origw = par.words@;
                let wn = par.words.len();
                let mut neww: Vec<Word> = Vec::new();
                let mut wi: usize = 0;
                proof {
                    reveal_with_fuel(drop_empty_words, 1);
                    assert(origw.take(0) =~= Seq::<Word>::empty());
                }
                while wi < wn
                    invariant
                        wi <= wn,
                        wn == origw.len(),
                        par.words@ == origw.skip(wi as int),
                        par.properties == orig[p as int].properties,
                        par.lines == orig[p as int].lines,
                        p < pn,
                        pn == orig.len(),
                        neww@ == drop_empty_words(origw.take(wi as int)),
                        forall|w: int|
                            0 <= w < origw.len() ==> (#[trigger] origw[w]).wf() && origw[w].merged()
                                && origw[w].metrics_wf(),
                        forall|w: int|
                            0 <= w < neww@.len() ==> (#[trigger] neww@[w]).wf()
                                && neww@[w].merged() && neww@[w].metrics_wf()
                                && neww@[w].text().len() > 0,
                    decreases wn - wi,
                {
                    proof {
                        lemma_drop_words_snoc(origw, wi as int);
                        assert(origw.skip(wi as int)[0] == origw[wi as int]);
                    }
                    let word = par.words.remove(0);
                    proof {
                        assert(par.words@ =~= origw.skip(wi as int + 1));
                        assert(word == origw[wi as int]);
                    }
                    if word.word.len() > 0 {
                        neww.push(word);
                    }
                    wi += 1;
                }
                proof {
                    assert(origw.take(wn as int) =~= origw);
                }
                let ghost prevkept = kept@;
                kept.push(
                    Paragraph { properties: par.properties, words: neww, lines: par.lines },
                );
                proof {
                    assert(kept_par_idxs(orig.take(p as int + 1)) == kept_par_idxs(
                        orig.take(p as int),
                    ).push(p as int));
                    assert forall|k: int|
                        0 <= k < kept@.len() implies ({
                        let j = kept_par_idxs(orig.take(p as int + 1))[k];
                        0 <= j < orig.len() && ({
                            let op = orig[j];
                            let np = (#[trigger] kept@[k]);
                            &&& np.properties == op.properties
                            &&& np.lines == op.lines
                            &&& np.words@ == drop_empty_words(op.words@)
                        })
                    }) by {
                        if k < prevkept.len() {
                            assert(kept@[k] == prevkept[k]);
                            assert(kept_par_idxs(orig.take(p as int + 1))[k] == kept_par_idxs(
                                orig.take(p as int),
                            )[k]);
                        } else {
                            assert(kept_par_idxs(orig.take(p as int + 1))[k] == p as int);
                            assert(kept@[k].properties == orig[p as int].properties);
                            assert(kept@[k].lines == orig[p as int].lines);
                            assert(kept@[k].words@ == drop_empty_words(orig[p as int].words@));
                        }
                    };
                }
            } else {
                proof {
                    assert(kept_par_idxs(orig.take(p as int + 1)) == kept_par_idxs(
                        orig.take(p as int),
                    ));
                }
            }
            p += 1;
        }
        proof {
            assert(orig.take(pn as int) =~= orig);
        }
        self.paragraphs = kept;
    }
}

/// A length clamped into the metric bound from above.
pub open spec fn spec_min_dim(v: int) -> int {
    if v > MAX_DIM as int {
        MAX_DIM as int
    } else {
        v
    }
}

/// A length clamped into `[0, MAX_DIM]`.
pub open spec fn spec_clamp_dim(v: int) -> int {
    if v < 0 {
        0
    } else if v > MAX_DIM as int {
        MAX_DIM as int
    } else {
        v
    }
}

/// The page properties a relayout derives from the section: the page
/// size, and the margins with header and footer folded into top and
/// bottom, clamped into the metric range.
pub open spec fn spec_layout_props(sect: SectrOfProperties) -> PageProperties {
    PageProperties {
        size: Size {
            width: spec_min_dim(sect.page_size.width as int) as i64,
            height: spec_min_dim(sect.page_size.height as int) as i64,
        },
        paddings: crate::geometry::Paddings {
            top: spec_clamp_dim(clip(sect.page_margin.header + sect.page_margin.top)) as i64,
            right: spec_clamp_dim(sect.page_margin.right as int) as i64,
            bottom: spec_clamp_dim(
                clip(sect.page_margin.bottom + sect.page_margin.footer),
            ) as i64,
            left: spec_clamp_dim(sect.page_margin.left as int) as i64,
        },
    }
}

/// The left edge of the content area.  The x coordinates do not depend
/// on the scroll offset; `scaled` tells whether the paddings are scaled
/// by the zoom, as on the first page, or raw, as on pages opened by a
/// break.
pub open spec fn spec_content_lx(
    sect: SectrOfProperties,
    v_width: int,
    scale: int,
    scaled: bool,
) -> int {
    let props = spec_layout_props(sect);
    let w = clip(crate::num::tdiv(props.size.width as int * scale, 100));
    let x0 = clip(crate::num::tdiv(clip(v_width - w), 2));
    let pl = if scaled {
        clip(crate::num::tdiv(props.paddings.left as int * scale, 100))
    } else {
        props.paddings.left as int
    };
    clip(x0 + pl)
}

/// The right edge of the content area (see `spec_content_lx`).
pub open spec fn spec_content_rx(
    sect: SectrOfProperties,
    v_width: int,
    scale: int,
    scaled: bool,
) -> int {
    let props = spec_layout_props(sect);
    let w = clip(crate::num::tdiv(props.size.width as int * scale, 100));
    let x0 = clip(crate::num::tdiv(clip(v_width - w), 2));
    let xr = clip(x0 + w);
    let pr = if scaled {
        clip(crate::num::tdiv(props.paddings.right as int * scale, 100))
    } else {
        props.paddings.right as int
    };
    clip(xr - pr)
}

/// The width the line breaker gets: the content width, floored at zero.
pub open spec fn spec_content_width(
    sect: SectrOfProperties,
    v_width: int,
    scale: int,
    scaled: bool,
) -> int {
    let w = clip(
        spec_content_rx(sect, v_width, scale, scaled) - spec_content_lx(
            sect,
            v_width,
            scale,
            scaled,
        ),
    );
    if w < 0 {
        0
    } else {
        w
    }
}

/// The rectangle's left and right edges are those of a first page's
/// content area (scaled paddings) or of one opened by a break (raw
/// paddings).
pub open spec fn rect_content_x_ok(
    r: Rectangle,
    sect: SectrOfProperties,
    v_width: int,
    scale: int,
) -> bool {
    ||| (r.left_top.x as int == spec_content_lx(sect, v_width, scale, true)
        && r.right_bottom.x as int == spec_content_rx(sect, v_width, scale, true))
    ||| (r.left_top.x as int == spec_content_lx(sect, v_width, scale, false)
        && r.right_bottom.x as int == spec_content_rx(sect, v_width, scale, false))
}

/// The content edges the layout context currently carries are those of
/// a first page (scaled paddings) or of a page opened by a break (raw
/// paddings).
pub open spec fn ctx_content_x_ok(
    ctx: LayoutCtx,
    sect: SectrOfProperties,
    v_width: int,
    scale: int,
) -> bool {
    rect_content_x_ok(ctx.page_content_rect, sect, v_width, scale)
}

/// A vertical offset step (possibly opening a new page) leaves the
/// content edges those of a first page or of a page opened by a break.
proof fn lemma_push_keeps_content_x(
    pre: LayoutCtx,
    post: LayoutCtx,
    sect: SectrOfProperties,
    v_width: int,
    scale: int,
    off: int,
)
    requires
        pre.page_properties == spec_layout_props(sect),
        post.page_properties == pre.page_properties,
        ctx_content_x_ok(pre, sect, v_width, scale),
        (post.page_content_rect.left_top.x == pre.page_content_rect.left_top.x
            && post.page_content_rect.right_bottom.x == pre.page_content_rect.right_bottom.x) || (
        post.page_rect == crate::pages::spec_page_rect(pre.page_properties, v_width, off, scale)
            && post.page_content_rect == post.page_rect.spec_add_paddings(
            pre.page_properties.paddings,
        )),
    ensures
        ctx_content_x_ok(post, sect, v_width, scale),
{
}

/// What a relayout leaves on a paragraph: every line's cached metrics
/// agree with the folds over its words, and the lines are the greedy
/// breaking at the content width of the page the paragraph started on
/// (scaled paddings on the first page, raw paddings after a break).
pub open spec fn par_lines_computed(par: Paragraph, cws: int, cwr: int) -> bool {
    &&& forall|i: int|
        0 <= i < par.lines@.len() ==> crate::lines::line_metrics_ok(
            par.words@,
            #[trigger] par.lines@[i],
            DEFAULT_VERTICAL_SPACING as int,
        )
    &&& (crate::lines::lines_greedy(
        par.lines@,
        par.words@,
        cws,
        DEFAULT_VERTICAL_SPACING as int,
    ) || crate::lines::lines_greedy(
        par.lines@,
        par.words@,
        cwr,
        DEFAULT_VERTICAL_SPACING as int,
    ))
}

impl DocumentDraw {
    /// Lay the document out again: rebuild the pages from the first page
    /// at the scroll offset, break every paragraph's words into lines
    /// bounded by the page content width, position every line under its
    /// paragraph's justification, and advance the page cursor by the
    /// paragraph and line spacings (allocating new pages as needed).
    ///
    /// The text content is untouched: every word keeps its graphemes.
    /// Afterwards every paragraph's lines partition its words, and the
    /// page tops strictly increase (up to clamping at the coordinate
    /// range's edge).
    #[verifier::rlimit(100)]
    pub fn update_document(&mut self, v_width: i64)
        requires
            old(self).words_wf(),
            in_range(v_width as int),
        ensures
            final(self).words_wf(),
            final(self).lines_ok(),
            final(self).pages@.len() >= 1,
            pages_monotone(final(self).pages@),
            // the first page sits at the (clamped) scroll offset and each
            // later page one scaled gap below its predecessor's bottom
            page_top(final(self).pages@[0]) == clip(old(self).scroll as int),
            crate::pages::pages_adjacent(final(self).pages@, old(self).scale as int),
            final(self).paragraphs@.len() == old(self).paragraphs@.len(),
            final(self).cursor == old(self).cursor,
            final(self).scroll == old(self).scroll,
            final(self).scale == old(self).scale,
            final(self).sect_properties == old(self).sect_properties,
            forall|p: int|
                0 <= p < old(self).paragraphs@.len() ==> ({
                    let op = old(self).paragraphs@[p];
                    let np = (#[trigger] final(self).paragraphs@[p]);
                    &&& np.properties == op.properties
                    &&& np.words@.len() == op.words@.len()
                    &&& forall|w: int|
                        0 <= w < op.words@.len() ==> (#[trigger] np.words@[w]).word@
                            == op.words@[w].word@
                }),
            // each paragraph's lines are the greedy breaking at its
            // page's content width, with the cached metrics agreeing
            forall|p: int|
                0 <= p < final(self).paragraphs@.len() ==> par_lines_computed(
                    #[trigger] final(self).paragraphs@[p],
                    spec_content_width(
                        old(self).sect_properties,
                        v_width as int,
                        old(self).scale as int,
                        true,
                    ),
                    spec_content_width(
                        old(self).sect_properties,
                        v_width as int,
                        old(self).scale as int,
                        false,
                    ),
                ),
            final(self).paragraphs@.len() > 0 ==> crate::lines::lines_greedy(
                final(self).paragraphs@[0].lines@,
                final(self).paragraphs@[0].words@,
                spec_content_width(
                    old(self).sect_properties,
                    v_width as int,
                    old(self).scale as int,
                    true,
                ),
                DEFAULT_VERTICAL_SPACING as int,
            ),
            final(self).selection_color == old(self).selection_color,
            final(self).bg_color == old(self).bg_color,
            // the caret and selection primitives are exactly what each
            // line contributes, each against its page's content area
            exists|rects: Seq<Rectangle>|
                {
                    &&& rects.len() == flat_lines(
                        final(self).paragraphs@,
                        final(self).paragraphs@.len() as int,
                    )
                    &&& (forall|k: int|
                        0 <= k < rects.len() ==> rect_content_x_ok(
                            #[trigger] rects[k],
                            old(self).sect_properties,
                            v_width as int,
                            old(self).scale as int,
                        ))
                    &&& final(self).cursor_prims@ == doc_caret_prims(
                        final(self).cursor,
                        old(self).selection_color,
                        final(self).paragraphs@,
                        rects,
                        final(self).paragraphs@.len() as int,
                    )
                    // and every glyph primitive sits at its pen position,
                    // line by line against the same content rectangles
                    &&& (forall|q: int|
                        0 <= q < final(self).paragraphs@.len()
                            ==> #[trigger] par_glyphs_placed(
                            final(self).paragraphs@[q],
                            rects,
                            flat_lines(final(self).paragraphs@, q),
                            old(self).scale as int,
                        ))
                },
    {
        let (pw, ph) = self.sect_properties.get_size();
        let (mt, mr, mb, ml) = self.sect_properties.get_margins();
        let page_properties = PageProperties {
            size: Size {
                width: crate::num::imin(pw, MAX_DIM),
                height: crate::num::imin(ph, MAX_DIM),
            },
            paddings: crate::geometry::Paddings {
                top: crate::num::imin(crate::num::imax(mt, 0), MAX_DIM),
                right: crate::num::imin(crate::num::imax(mr, 0), MAX_DIM),
                bottom: crate::num::imin(crate::num::imax(mb, 0), MAX_DIM),
                left: crate::num::imin(crate::num::imax(ml, 0), MAX_DIM),
            },
        };
        let scale = self.scale;
        let scroll = self.scroll;
        let bg_color = self.bg_color;
        let first_page = new_page_with_offset(&page_properties, v_width, bg_color, scroll, scale);
        let page_rect = first_page.primitive.get_rect();
        let scaled_paddings = crate::geometry::Paddings {
            top: cmuldiv(page_properties.paddings.top, scale, 100),
            right: cmuldiv(page_properties.paddings.right, scale, 100),
            bottom: cmuldiv(page_properties.paddings.bottom, scale, 100),
            left: cmuldiv(page_properties.paddings.left, scale, 100),
        };
        let page_content_rect = page_rect.add_paddings(scaled_paddings);
        let mut pages: Vec<Page> = Vec::new();
        pages.push(first_page);
        self.cursor_prims = Vec::new();
        let ghost mut rects = Seq::<Rectangle>::empty();
        proof {
            reveal_with_fuel(flat_lines, 1);
            reveal_with_fuel(doc_caret_prims, 1);
            reveal_with_fuel(par_caret_prims, 1);
            assert(self.cursor_prims@ =~= doc_caret_prims(
                self.cursor,
                old(self).selection_color,
                self.paragraphs@,
                rects,
                0,
            ));
        }
        let mut ctx = LayoutCtx {
            page_content_rect,
            page_properties,
            bg_color,
            page_rect,
            v_width,
            scale,
        };
        let ghost cws = spec_content_width(
            old(self).sect_properties,
            v_width as int,
            old(self).scale as int,
            true,
        );
        let ghost cwr = spec_content_width(
            old(self).sect_properties,
            v_width as int,
            old(self).scale as int,
            false,
        );
        proof {
            assert(pages_monotone(pages@));
            assert(page_properties == spec_layout_props(old(self).sect_properties));
            assert(page_rect == crate::pages::spec_page_rect(
                page_properties,
                v_width as int,
                scroll as int,
                scale as int,
            ));
            assert(ctx.page_content_rect.left_top.x as int == spec_content_lx(
                old(self).sect_properties,
                v_width as int,
                old(self).scale as int,
                true,
            ));
            assert(ctx.page_content_rect.right_bottom.x as int == spec_content_rx(
                old(self).sect_properties,
                v_width as int,
                old(self).scale as int,
                true,
            ));
        }
        let pn = self.paragraphs.len();
        let mut p: usize = 0;
        while p < pn
            invariant
                p <= pn,
                pn == self.paragraphs@.len(),
                pn == old(self).paragraphs@.len(),
                ctx.wf(),
                ctx.scale == old(self).scale,
                scale == self.scale,
                pages@.len() >= 1,
                pages_monotone(pages@),
                crate::pages::pages_adjacent(pages@, old(self).scale as int),
                crate::pages::page_rect_of(pages@.last()) == ctx.page_rect,
                page_top(pages@[0]) == clip(old(self).scroll as int),
                self.cursor == old(self).cursor,
                self.scroll == old(self).scroll,
                self.scale == old(self).scale,
                self.sect_properties == old(self).sect_properties,
                self.bg_color == old(self).bg_color,
                self.selection_color == old(self).selection_color,
                10 <= self.scale <= 200,
                in_range(self.scroll as int),
                self.sect_properties.wf(),
                in_range(v_width as int),
                ctx.page_properties == spec_layout_props(old(self).sect_properties),
                ctx.v_width == v_width,
                ctx_content_x_ok(
                    ctx,
                    old(self).sect_properties,
                    v_width as int,
                    old(self).scale as int,
                ),
                p == 0 ==> ctx.page_content_rect.left_top.x as int == spec_content_lx(
                    old(self).sect_properties,
                    v_width as int,
                    old(self).scale as int,
                    true,
                ) && ctx.page_content_rect.right_bottom.x as int == spec_content_rx(
                    old(self).sect_properties,
                    v_width as int,
                    old(self).scale as int,
                    true,
                ),
                cws == spec_content_width(
                    old(self).sect_properties,
                    v_width as int,
                    old(self).scale as int,
                    true,
                ),
                cwr == spec_content_width(
                    old(self).sect_properties,
                    v_width as int,
                    old(self).scale as int,
                    false,
                ),
                forall|q: int|
                    0 <= q < p ==> par_lines_computed(#[trigger] self.paragraphs@[q], cws, cwr),
                p > 0 && pn > 0 ==> crate::lines::lines_greedy(
                    self.paragraphs@[0].lines@,
                    self.paragraphs@[0].words@,
                    cws,
                    DEFAULT_VERTICAL_SPACING as int,
                ),
                rects.len() == flat_lines(self.paragraphs@, p as int),
                forall|k: int|
                    0 <= k < rects.len() ==> rect_content_x_ok(
                        #[trigger] rects[k],
                        old(self).sect_properties,
                        v_width as int,
                        old(self).scale as int,
                    ),
                self.cursor_prims@ == doc_caret_prims(
                    self.cursor,
                    old(self).selection_color,
                    self.paragraphs@,
                    rects,
                    p as int,
                ),
                forall|q: int|
                    0 <= q < p ==> #[trigger] par_glyphs_placed(
                        self.paragraphs@[q],
                        rects,
                        flat_lines(self.paragraphs@, q),
                        old(self).scale as int,
                    ),
                forall|q: int|
                    0 <= q < pn ==> (#[trigger] self.paragraphs@[q]).properties == old(
                        self,
                    ).paragraphs@[q].properties,
                forall|q: int|
                    0 <= q < pn ==> (#[trigger] self.paragraphs@[q]).words@.len() == old(
                        self,
                    ).paragraphs@[q].words@.len(),
                forall|q: int|
                    0 <= q < pn ==> forall|w: int|
                        0 <= w < old(self).paragraphs@[q].words@.len() ==> (#[trigger] (
                        #[trigger] self.paragraphs@[q]).words@[w]).word@ == old(
                            self,
                        ).paragraphs@[q].words@[w].word@,
                forall|q: int| 0 <= q < pn ==> (#[trigger] self.paragraphs@[q]).words_wf(),
                forall|q: int| 0 <= q < p ==> (#[trigger] self.paragraphs@[q]).lines_ok(),
            decreases pn - p,
        {
            let properties = &self.paragraphs[p].properties;
            let spacing_before = match properties.spacing.before {
                Some(v) => v,
                None => DEFAULT_SPACING_BEFORE,
            };
            let spacing_after = match properties.spacing.after {
                Some(v) => v,
                None => DEFAULT_SPACING_AFTER,
            };
            let spacing_line = properties.spacing.line;
            let justify = properties.justify;
            if p != 0 {
                let delta = cmuldiv(spacing_before, scale, 100);
                let delta = crate::num::imax(delta, 0);
                let ghost ctx0 = ctx;
                vertical_offset_and_push(&mut ctx, &mut pages, delta);
                proof {
                    lemma_push_keeps_content_x(
                        ctx0,
                        ctx,
                        old(self).sect_properties,
                        v_width as int,
                        old(self).scale as int,
                        clip(
                            ctx0.page_rect.right_bottom.y + clip(
                                crate::num::tdiv(
                                    crate::pages::PAGE_SPACE_BETWEEN as int * old(
                                        self,
                                    ).scale as int,
                                    100,
                                ),
                            ),
                        ),
                    );
                }
            }
            let cw = crate::num::imax(
                csub(ctx.page_content_rect.right_bottom.x, ctx.page_content_rect.left_top.x),
                0,
            );
            proof {
                assert(cw as int == cws || cw as int == cwr);
            }
            let ghost w0 = self.paragraphs@[p as int].words@;
            let ghost pars_before = self.paragraphs@;
            let lines = get_lines(&self.paragraphs[p].words, cw, DEFAULT_VERTICAL_SPACING);
            self.paragraphs[p].lines = lines;
            proof {
                lemma_flat_lines_congruent(pars_before, self.paragraphs@, p as int);
                lemma_doc_caret_congruent(
                    self.cursor,
                    old(self).selection_color,
                    pars_before,
                    self.paragraphs@,
                    rects,
                    p as int,
                );
                assert forall|q: int| 0 <= q < p as int implies #[trigger] par_glyphs_placed(
                    self.paragraphs@[q],
                    rects,
                    flat_lines(self.paragraphs@, q),
                    old(self).scale as int,
                ) by {
                    lemma_flat_lines_congruent(pars_before, self.paragraphs@, q);
                    assert(par_glyphs_placed(
                        pars_before[q],
                        rects,
                        flat_lines(pars_before, q),
                        old(self).scale as int,
                    ));
                    assert(self.paragraphs@[q] == pars_before[q]);
                };
                reveal_with_fuel(par_caret_prims, 1);
                assert(self.cursor_prims@ =~= doc_caret_prims(
                    self.cursor,
                    old(self).selection_color,
                    self.paragraphs@,
                    rects,
                    p as int,
                ) + par_caret_prims(
                    self.cursor,
                    old(self).selection_color,
                    p,
                    self.paragraphs@[p as int],
                    rects,
                    flat_lines(self.paragraphs@, p as int),
                    0,
                ));
            }
            proof {
                let par = self.paragraphs@[p as int];
                assert forall|i: int|
                    0 <= i < par.lines@.len() implies 0 <= (#[trigger] par.lines@[i]).height
                    <= crate::num::MAX_COORD && 0 <= par.lines@[i].min_width
                    <= crate::num::MAX_COORD && 0 <= par.lines@[i].width_with_spacing
                    <= crate::num::MAX_COORD by {
                    crate::lines::lemma_line_range_in_bounds(
                        par.lines@,
                        par.words@.len() as int,
                        i,
                    );
                    crate::lines::lemma_line_metric_bounds(
                        par.words@,
                        par.lines@[i].range_start as int,
                        par.lines@[i].range_end as int,
                        DEFAULT_VERTICAL_SPACING as int,
                    );
                };
            }
            let ln = self.paragraphs[p].lines.len();
            let mut li: usize = 0;
            while li < ln
                invariant
                    li <= ln,
                    p < pn,
                    pn == self.paragraphs@.len(),
                    pn == old(self).paragraphs@.len(),
                    ln == self.paragraphs@[p as int].lines@.len(),
                    ctx.wf(),
                    ctx.scale == old(self).scale,
                    scale == self.scale,
                    pages@.len() >= 1,
                    pages_monotone(pages@),
                    crate::pages::pages_adjacent(pages@, old(self).scale as int),
                    crate::pages::page_rect_of(pages@.last()) == ctx.page_rect,
                    page_top(pages@[0]) == clip(old(self).scroll as int),
                    self.cursor == old(self).cursor,
                    self.scroll == old(self).scroll,
                    self.scale == old(self).scale,
                    self.sect_properties == old(self).sect_properties,
                    self.bg_color == old(self).bg_color,
                    self.selection_color == old(self).selection_color,
                    10 <= self.scale <= 200,
                    in_range(self.scroll as int),
                    self.sect_properties.wf(),
                    in_range(cw as int),
                    0 <= cw,
                    (spacing_line matches Some(v) ==> 0 <= v as int <= crate::num::MAX_COORD as int),
                    justify == old(self).paragraphs@[p as int].properties.justify,
                    in_range(v_width as int),
                    ctx.page_properties == spec_layout_props(old(self).sect_properties),
                    ctx.v_width == v_width,
                    ctx_content_x_ok(
                        ctx,
                        old(self).sect_properties,
                        v_width as int,
                        old(self).scale as int,
                    ),
                    cws == spec_content_width(
                        old(self).sect_properties,
                        v_width as int,
                        old(self).scale as int,
                        true,
                    ),
                    cwr == spec_content_width(
                        old(self).sect_properties,
                        v_width as int,
                        old(self).scale as int,
                        false,
                    ),
                    cw as int == cws || cw as int == cwr,
                    p == 0 ==> cw as int == cws,
                    forall|q: int|
                        0 <= q < p ==> par_lines_computed(
                            #[trigger] self.paragraphs@[q],
                            cws,
                            cwr,
                        ),
                    p > 0 && pn > 0 ==> crate::lines::lines_greedy(
                        self.paragraphs@[0].lines@,
                        self.paragraphs@[0].words@,
                        cws,
                        DEFAULT_VERTICAL_SPACING as int,
                    ),
                    w0.len() == self.paragraphs@[p as int].words@.len(),
                    crate::lines::same_metrics(w0, self.paragraphs@[p as int].words@),
                    rects.len() == flat_lines(self.paragraphs@, p as int) + li,
                    forall|k: int|
                        0 <= k < rects.len() ==> rect_content_x_ok(
                            #[trigger] rects[k],
                            old(self).sect_properties,
                            v_width as int,
                            old(self).scale as int,
                        ),
                    self.cursor_prims@ == doc_caret_prims(
                        self.cursor,
                        old(self).selection_color,
                        self.paragraphs@,
                        rects,
                        p as int,
                    ) + par_caret_prims(
                        self.cursor,
                        old(self).selection_color,
                        p,
                        self.paragraphs@[p as int],
                        rects,
                        flat_lines(self.paragraphs@, p as int),
                        li as int,
                    ),
                    forall|q: int|
                        0 <= q < p ==> #[trigger] par_glyphs_placed(
                            self.paragraphs@[q],
                            rects,
                            flat_lines(self.paragraphs@, q),
                            old(self).scale as int,
                        ),
                    forall|i: int|
                        0 <= i < li ==> line_glyphs_placed(
                            self.paragraphs@[p as int],
                            i,
                            #[trigger] rects[flat_lines(self.paragraphs@, p as int) + i],
                            cw as int,
                            old(self).scale as int,
                        ),
                    li > 0 ==> rect_cw(rects[flat_lines(self.paragraphs@, p as int)])
                        == cw as int,
                    li == 0 ==> rect_cw(ctx.page_content_rect) == cw as int,
                    crate::lines::lines_greedy(
                        self.paragraphs@[p as int].lines@,
                        w0,
                        cw as int,
                        DEFAULT_VERTICAL_SPACING as int,
                    ),
                    forall|i: int|
                        0 <= i < ln ==> crate::lines::line_metrics_ok(
                            w0,
                            #[trigger] self.paragraphs@[p as int].lines@[i],
                            DEFAULT_VERTICAL_SPACING as int,
                        ),
                    w0.len() > 0 ==> forall|i: int|
                        0 <= i < ln ==> (#[trigger] self.paragraphs@[p as int].lines@[i]).range_start
                            < self.paragraphs@[p as int].lines@[i].range_end,
                    w0.len() == 0 ==> ln == 1,
                    crate::lines::lines_partition(
                        self.paragraphs@[p as int].lines@,
                        self.paragraphs@[p as int].words@.len() as int,
                    ),
                    forall|i: int|
                        0 <= i < ln ==> 0 <= (#[trigger] self.paragraphs@[p as int].lines@[i]).height
                            <= crate::num::MAX_COORD && 0 <= self.paragraphs@[p as int].lines@[i].min_width
                            <= crate::num::MAX_COORD && 0 <= self.paragraphs@[
                            p as int
                        ].lines@[i].width_with_spacing <= crate::num::MAX_COORD,
                    forall|q: int|
                        0 <= q < pn ==> (#[trigger] self.paragraphs@[q]).properties == old(
                            self,
                        ).paragraphs@[q].properties,
                    forall|q: int|
                        0 <= q < pn ==> (#[trigger] self.paragraphs@[q]).words@.len() == old(
                            self,
                        ).paragraphs@[q].words@.len(),
                    forall|q: int|
                        0 <= q < pn ==> forall|w: int|
                            0 <= w < old(self).paragraphs@[q].words@.len() ==> (#[trigger] (
                            #[trigger] self.paragraphs@[q]).words@[w]).word@ == old(
                                self,
                            ).paragraphs@[q].words@[w].word@,
                    forall|q: int| 0 <= q < pn ==> (#[trigger] self.paragraphs@[q]).words_wf(),
                    forall|q: int| 0 <= q < p ==> (#[trigger] self.paragraphs@[q]).lines_ok(),
                decreases ln - li,
            {
                let line = self.paragraphs[p].lines[li];
                proof {
                    crate::lines::lemma_line_range_in_bounds(
                        self.paragraphs@[p as int].lines@,
                        self.paragraphs@[p as int].words@.len() as int,
                        li as int,
                    );
                }
                let justification_ok = (line.range_end as u64) <= (crate::num::MAX_COORD as u64);
                let (voff, vsp) = if justification_ok {
                    get_line_vertical_metrics(justify, cw, &line, DEFAULT_VERTICAL_SPACING)
                } else {
                    (0i64, VerticalSpacing::Relative(DEFAULT_VERTICAL_SPACING))
                };
                proof {
                    assert(justify == self.paragraphs@[p as int].properties.justify);
                    assert((voff as int, vsp) == spec_line_vmetrics(
                        self.paragraphs@[p as int].properties.justify,
                        cw as int,
                        line,
                    ));
                }
                let ghost wbefore = self.paragraphs@[p as int].words@;
                let ghost pars_mid = self.paragraphs@;
                update_line(
                    &mut self.paragraphs[p].words,
                    &line,
                    ctx.page_content_rect.left_top,
                    scale,
                    voff,
                    vsp,
                );
                proof {
                    let wafter = self.paragraphs@[p as int].words@;
                    assert forall|w: int|
                        0 <= w < wbefore.len() implies (#[trigger] wafter[w]).word@
                        == wbefore[w].word@ && wafter[w].wf() && wafter[w].merged()
                        && wafter[w].metrics_wf() && wafter[w].segs() == wbefore[w].segs() by {
                        if line.range_start <= w < line.range_end {
                            assert(wafter[w].glyphs_views@.len()
                                == wbefore[w].glyphs_views@.len());
                            assert(wafter[w].segs() =~= wbefore[w].segs());
                        } else {
                            assert(wafter[w] == wbefore[w]);
                        }
                    };
                    assert forall|q: int|
                        0 <= q < pn implies (#[trigger] self.paragraphs@[q]).words_wf() by {};
                    assert forall|q: int|
                        0 <= q < pn implies forall|w: int|
                        0 <= w < old(self).paragraphs@[q].words@.len() ==> (#[trigger] (
                        #[trigger] self.paragraphs@[q]).words@[w]).word@ == old(
                            self,
                        ).paragraphs@[q].words@[w].word@ by {};
                    assert forall|w: int|
                        0 <= w < w0.len() implies crate::lines::same_gv_metrics(
                        (#[trigger] w0[w]).glyphs_views@,
                        wafter[w].glyphs_views@,
                    ) by {
                        assert(crate::lines::same_gv_metrics(
                            w0[w].glyphs_views@,
                            wbefore[w].glyphs_views@,
                        ));
                        if line.range_start <= w < line.range_end {
                            assert forall|j: int|
                                0 <= j < wbefore[w].glyphs_views@.len() implies ({
                                let ogp = wbefore[w].glyphs_views@[j].primitive.prop;
                                let ngp = (#[trigger] wafter[w].glyphs_views@[j]).primitive.prop;
                                crate::primitives::prim_width(ngp) == crate::primitives::prim_width(
                                    ogp,
                                ) && crate::primitives::prim_height(ngp)
                                    == crate::primitives::prim_height(ogp)
                                    && crate::primitives::prim_scale(ngp)
                                    == crate::primitives::prim_scale(ogp)
                            }) by {
                                let ogp = wbefore[w].glyphs_views@[j].primitive.prop;
                                match ogp {
                                    PrimitiveProperties::PlainText(pt) => {},
                                    _ => {},
                                }
                            };
                            assert(crate::lines::same_gv_metrics(
                                wbefore[w].glyphs_views@,
                                wafter[w].glyphs_views@,
                            ));
                        } else {
                            assert(wafter[w] == wbefore[w]);
                        }
                    };
                    assert(crate::lines::same_metrics(w0, wafter));
                    lemma_flat_lines_congruent(pars_mid, self.paragraphs@, p as int);
                    lemma_doc_caret_congruent(
                        self.cursor,
                        old(self).selection_color,
                        pars_mid,
                        self.paragraphs@,
                        rects,
                        p as int,
                    );
                    assert forall|i: int, w: int|
                        0 <= i < li as int && (#[trigger] pars_mid[p as int].lines@[i]).range_start
                            <= w < pars_mid[p as int].lines@[i].range_end implies (
                    #[trigger] pars_mid[p as int].words@[w]) == self.paragraphs@[p as int].words@[w] by {
                        assert(pars_mid[p as int].lines@ == self.paragraphs@[p as int].lines@);
                        assert(pars_mid[p as int].words@.len() == self.paragraphs@[
                            p as int
                        ].words@.len());
                        assert(crate::lines::lines_partition(
                            pars_mid[p as int].lines@,
                            pars_mid[p as int].words@.len() as int,
                        ));
                        crate::lines::lemma_line_ends_monotone(
                            pars_mid[p as int].lines@,
                            pars_mid[p as int].words@.len() as int,
                            i,
                            li as int - 1,
                        );
                        assert(pars_mid[p as int].lines@[(li as int - 1) + 1].range_start
                            == pars_mid[p as int].lines@[li as int - 1].range_end);
                        assert(pars_mid[p as int].lines@[li as int].range_start == pars_mid[
                            p as int
                        ].lines@[li as int - 1].range_end);
                        assert(w < line.range_start);
                        assert(wafter[w] == wbefore[w]);
                    };
                    lemma_par_caret_words_congruent(
                        self.cursor,
                        old(self).selection_color,
                        p,
                        pars_mid[p as int],
                        self.paragraphs@[p as int],
                        rects,
                        flat_lines(self.paragraphs@, p as int),
                        li as int,
                    );
                    // earlier paragraphs' placement is untouched
                    assert forall|q: int| 0 <= q < p as int implies #[trigger] par_glyphs_placed(
                        self.paragraphs@[q],
                        rects,
                        flat_lines(self.paragraphs@, q),
                        old(self).scale as int,
                    ) by {
                        lemma_flat_lines_congruent(pars_mid, self.paragraphs@, q);
                        assert(par_glyphs_placed(
                            pars_mid[q],
                            rects,
                            flat_lines(pars_mid, q),
                            old(self).scale as int,
                        ));
                        assert(self.paragraphs@[q] == pars_mid[q]);
                    };
                    // this paragraph's earlier lines keep their placement:
                    // their word ranges lie below the just-placed line
                    let ghost base = flat_lines(self.paragraphs@, p as int);
                    assert(flat_lines(pars_mid, p as int) == base) by {
                        lemma_flat_lines_congruent(pars_mid, self.paragraphs@, p as int);
                    }
                    assert forall|i: int| 0 <= i < li as int implies line_glyphs_placed(
                        self.paragraphs@[p as int],
                        i,
                        #[trigger] rects[base + i],
                        cw as int,
                        old(self).scale as int,
                    ) by {
                        assert(line_glyphs_placed(
                            pars_mid[p as int],
                            i,
                            rects[base + i],
                            cw as int,
                            old(self).scale as int,
                        ));
                        assert forall|w: int|
                            pars_mid[p as int].lines@[i].range_start <= w < pars_mid[
                            p as int
                        ].lines@[i].range_end implies (#[trigger] pars_mid[p as int].words@[w])
                            == self.paragraphs@[p as int].words@[w] by {
                            assert(crate::lines::lines_partition(
                                pars_mid[p as int].lines@,
                                pars_mid[p as int].words@.len() as int,
                            ));
                            crate::lines::lemma_line_ends_monotone(
                                pars_mid[p as int].lines@,
                                pars_mid[p as int].words@.len() as int,
                                i,
                                li as int - 1,
                            );
                            assert(pars_mid[p as int].lines@[(li as int - 1) + 1].range_start
                                == pars_mid[p as int].lines@[li as int - 1].range_end);
                            assert(w < line.range_start);
                            assert(wafter[w] == wbefore[w]);
                        };
                        lemma_line_glyphs_words_congruent(
                            pars_mid[p as int],
                            self.paragraphs@[p as int],
                            i,
                            rects[base + i],
                            cw as int,
                            old(self).scale as int,
                        );
                    };
                    // the just-laid line is placed against the current
                    // content rectangle: the pen folds carry over from the
                    // words as they were measured
                    let ghost curpar = self.paragraphs@[p as int];
                    let ghost vm = spec_line_vmetrics(
                        curpar.properties.justify,
                        cw as int,
                        line,
                    );
                    assert(vm == (voff as int, vsp));
                    assert forall|i: int|
                        line.range_start <= i < line.range_end implies #[trigger] word_glyphs_placed(
                        curpar.words@,
                        line,
                        i,
                        ctx.page_content_rect,
                        vm.0,
                        vm.1,
                        old(self).scale as int,
                    ) by {
                        assert forall|w: int|
                            line.range_start as int <= w < i implies crate::lines::same_advances(
                            (#[trigger] wafter[w]).glyphs_views@,
                            wbefore[w].glyphs_views@,
                        ) by {
                            assert forall|j: int|
                                0 <= j < wafter[w].glyphs_views@.len() implies crate::lines::same_advance(
                                (#[trigger] wafter[w].glyphs_views@[j]).primitive.prop,
                                wbefore[w].glyphs_views@[j].primitive.prop,
                            ) by {
                                let ogp = wbefore[w].glyphs_views@[j].primitive.prop;
                                match ogp {
                                    PrimitiveProperties::PlainText(pt) => {},
                                    _ => {},
                                }
                            };
                        };
                        crate::lines::lemma_line_place_congruent(
                            wafter,
                            wbefore,
                            line.range_start as int,
                            i,
                            voff as int,
                            vsp,
                        );
                        let pl = crate::lines::line_place(
                            wbefore,
                            line.range_start as int,
                            i,
                            voff as int,
                            vsp,
                        );
                        assert forall|j: int|
                            0 <= j < wafter[i].glyphs_views@.len() implies crate::lines::same_advance(
                            (#[trigger] wafter[i].glyphs_views@[j]).primitive.prop,
                            wbefore[i].glyphs_views@[j].primitive.prop,
                        ) by {
                            let ogp = wbefore[i].glyphs_views@[j].primitive.prop;
                            match ogp {
                                PrimitiveProperties::PlainText(pt) => {},
                                _ => {},
                            }
                        };
                        assert forall|j: int|
                            0 <= j < curpar.words@[i].glyphs_views@.len() implies ({
                            let gp = (#[trigger] curpar.words@[i].glyphs_views@[j]).primitive.prop;
                            gp matches PrimitiveProperties::PlainText(pt) ==> ({
                                let pen = crate::lines::word_place(
                                    crate::lines::line_place(
                                        curpar.words@,
                                        line.range_start as int,
                                        i,
                                        vm.0,
                                        vm.1,
                                    ).0,
                                    crate::lines::line_place(
                                        curpar.words@,
                                        line.range_start as int,
                                        i,
                                        vm.0,
                                        vm.1,
                                    ).1,
                                    curpar.words@[i].glyphs_views@,
                                    j,
                                );
                                pt.left_top.x as int == clip(
                                    ctx.page_content_rect.left_top.x + pen.0,
                                ) && pt.left_top.y as int == clip(
                                    ctx.page_content_rect.left_top.y + clip(
                                        crate::num::tdiv(
                                            (line.height - pt.size.height) * old(
                                                self,
                                            ).scale as int,
                                            100,
                                        ),
                                    ),
                                )
                            })
                        }) by {
                            crate::lines::lemma_word_place_congruent(
                                pl.0,
                                pl.1,
                                wafter[i].glyphs_views@,
                                wbefore[i].glyphs_views@,
                                j,
                            );
                        };
                    };
                    assert(line_glyphs_placed(
                        curpar,
                        li as int,
                        ctx.page_content_rect,
                        cw as int,
                        old(self).scale as int,
                    )) by {
                        assert(curpar.lines@[li as int] == line);
                    }
                }
                update_cursor_prims(
                    &mut self.cursor_prims,
                    self.selection_color,
                    &self.cursor,
                    p,
                    li,
                    &self.paragraphs[p],
                    &line,
                    ctx.page_content_rect,
                    None,
                );
                proof {
                    let color = old(self).selection_color;
                    let base = flat_lines(self.paragraphs@, p as int);
                    lemma_flat_lines_monotone(self.paragraphs@, 0, p as int);
                    lemma_doc_caret_push_rect(
                        self.cursor,
                        color,
                        self.paragraphs@,
                        rects,
                        ctx.page_content_rect,
                        p as int,
                    );
                    lemma_par_caret_push_rect(
                        self.cursor,
                        color,
                        p,
                        self.paragraphs@[p as int],
                        rects,
                        ctx.page_content_rect,
                        base,
                        li as int,
                    );
                    assert forall|q: int| 0 <= q < p as int implies #[trigger] par_glyphs_placed(
                        self.paragraphs@[q],
                        rects.push(ctx.page_content_rect),
                        flat_lines(self.paragraphs@, q),
                        old(self).scale as int,
                    ) by {
                        lemma_flat_lines_monotone(self.paragraphs@, q + 1, p as int);
                        lemma_flat_lines_snoc(self.paragraphs@, q);
                        lemma_flat_lines_monotone(self.paragraphs@, 0, q);
                        lemma_par_glyphs_push_rect(
                            self.paragraphs@[q],
                            rects,
                            ctx.page_content_rect,
                            flat_lines(self.paragraphs@, q),
                            old(self).scale as int,
                        );
                    };
                    rects = rects.push(ctx.page_content_rect);
                    if li == 0 {
                        assert(rects[base] == ctx.page_content_rect);
                        assert(rect_cw(rects[base]) == cw as int);
                    } else {
                        assert(rects[base] == rects.drop_last()[base]);
                    }
                    lemma_par_caret_snoc(
                        self.cursor,
                        color,
                        p,
                        self.paragraphs@[p as int],
                        rects,
                        base,
                        li as int,
                    );
                    assert(rects[base + li as int] == ctx.page_content_rect);
                    assert(self.cursor_prims@ =~= doc_caret_prims(
                        self.cursor,
                        color,
                        self.paragraphs@,
                        rects,
                        p as int,
                    ) + par_caret_prims(
                        self.cursor,
                        color,
                        p,
                        self.paragraphs@[p as int],
                        rects,
                        base,
                        li as int + 1,
                    ));
                }
                if li + 1 < ln {
                    let delta = match spacing_line {
                        Some(v) => cmuldiv(v, scale, 100),
                        None => line.height,
                    };
                    let delta = crate::num::imax(delta, 0);
                    let ghost ctx1 = ctx;
                    vertical_offset_and_push(&mut ctx, &mut pages, delta);
                    proof {
                        lemma_push_keeps_content_x(
                            ctx1,
                            ctx,
                            old(self).sect_properties,
                            v_width as int,
                            old(self).scale as int,
                            clip(
                                ctx1.page_rect.right_bottom.y + clip(
                                    crate::num::tdiv(
                                        crate::pages::PAGE_SPACE_BETWEEN as int * old(
                                            self,
                                        ).scale as int,
                                        100,
                                    ),
                                ),
                            ),
                        );
                    }
                }
                li += 1;
            }
            proof {
                crate::lines::lemma_lines_congruent(
                    self.paragraphs@[p as int].lines@,
                    w0,
                    self.paragraphs@[p as int].words@,
                    cw as int,
                    DEFAULT_VERTICAL_SPACING as int,
                );
                assert(par_lines_computed(self.paragraphs@[p as int], cws, cwr));
                lemma_doc_caret_snoc(
                    self.cursor,
                    old(self).selection_color,
                    self.paragraphs@,
                    rects,
                    p as int,
                );
                lemma_flat_lines_snoc(self.paragraphs@, p as int);
                assert(self.cursor_prims@ =~= doc_caret_prims(
                    self.cursor,
                    old(self).selection_color,
                    self.paragraphs@,
                    rects,
                    p as int + 1,
                ));
            }
            let ghost done_p = p as int;
            if p + 1 < pn {
                let delta = cmuldiv(spacing_after, scale, 100);
                let delta = crate::num::imax(delta, 0);
                let ghost ctx1 = ctx;
                vertical_offset_and_push(&mut ctx, &mut pages, delta);
                proof {
                    lemma_push_keeps_content_x(
                        ctx1,
                        ctx,
                        old(self).sect_properties,
                        v_width as int,
                        old(self).scale as int,
                        clip(
                            ctx1.page_rect.right_bottom.y + clip(
                                crate::num::tdiv(
                                    crate::pages::PAGE_SPACE_BETWEEN as int * old(
                                        self,
                                    ).scale as int,
                                    100,
                                ),
                            ),
                        ),
                    );
                }
            }
            proof {
                assert forall|q: int| 0 <= q < done_p + 1 implies par_lines_computed(
                    #[trigger] self.paragraphs@[q],
                    cws,
                    cwr,
                ) by {};
            }
            p += 1;
        }
        self.pages = pages;
        proof {
            assert(exists|rs: Seq<Rectangle>|
                {
                    &&& rs.len() == flat_lines(self.paragraphs@, self.paragraphs@.len() as int)
                    &&& (forall|k: int|
                        0 <= k < rs.len() ==> rect_content_x_ok(
                            #[trigger] rs[k],
                            old(self).sect_properties,
                            v_width as int,
                            old(self).scale as int,
                        ))
                    &&& self.cursor_prims@ == doc_caret_prims(
                        self.cursor,
                        old(self).selection_color,
                        self.paragraphs@,
                        rs,
                        self.paragraphs@.len() as int,
                    )
                }) by {
                assert(rects.len() == flat_lines(self.paragraphs@, self.paragraphs@.len() as int));
            };
        }
    }
}

/// The positions of the paragraph nodes among the first `upto` content
/// nodes, in order.
#[verifier::opaque]
pub open spec fn par_node_idxs(nodes: Seq<crate::docx::DocxNode>, upto: int) -> Seq<int>
    decreases upto,
{
    if upto <= 0 {
        Seq::<int>::empty()
    } else {
        let m = par_node_idxs(nodes, upto - 1);
        if nodes[upto - 1] is Paragrapth {
            m.push(upto - 1)
        } else {
            m
        }
    }
}

/// One unfolding step of `par_node_idxs`.
proof fn lemma_par_node_idxs_snoc(nodes: Seq<crate::docx::DocxNode>, k: int)
    requires
        0 <= k,
    ensures
        par_node_idxs(nodes, k + 1) == if nodes[k] is Paragrapth {
            par_node_idxs(nodes, k).push(k)
        } else {
            par_node_idxs(nodes, k)
        },
{
    reveal_with_fuel(par_node_idxs, 2);
}

/// Entry `q` of the assembled paragraphs stands for the `q`-th
/// paragraph node among the first `upto` content nodes.
pub open spec fn par_entry_ok(
    pars: Seq<Paragraph>,
    nodes: Seq<crate::docx::DocxNode>,
    upto: int,
    q: int,
) -> bool {
    let j = par_node_idxs(nodes, upto)[q];
    0 <= j < nodes.len() && par_from_node(pars[q], nodes[j])
}

/// The paragraph was assembled from the given content node: it carries
/// the node's properties, no lines yet, and the words segmented from
/// the node's text runs.
pub open spec fn par_from_node(p: Paragraph, n: crate::docx::DocxNode) -> bool {
    n matches crate::docx::DocxNode::Paragrapth { properties, texts, .. } && p.properties
        == properties && p.lines@.len() == 0 && crate::segmenter::words_segmented(
        p.words@,
        texts@,
    )
}

/// Assemble a fresh document from parsed content nodes and the section
/// properties: one paragraph per paragraph node, in order, its words
/// segmented from the node's runs; other nodes contribute nothing.
/// Lines, pages and glyph primitives are left for a later relayout.
pub fn assemble_document(
    nodes: &Vec<crate::docx::DocxNode>,
    sect: Option<crate::props::SectrOfProperties>,
) -> (r: DocumentDraw)
    requires
        forall|j: int| #![trigger nodes@[j]]
            0 <= j < nodes@.len() ==> (nodes@[j] matches crate::docx::DocxNode::Paragrapth {
                properties,
                ..
            } ==> properties.wf()),
        (sect matches Some(s) ==> s.wf()),
    ensures
        r.words_wf(),
        r.scroll == 100,
        r.scale == 100,
        r.pages@.len() == 0,
        r.cursor_prims@.len() == 0,
        r.cursor == Cursor::Normal(CursorPos { par_idx: 0, line_idx: 0, char_idx: 0 }),
        (sect matches Some(s) ==> r.sect_properties == s),
        r.paragraphs@.len() == par_node_idxs(nodes@, nodes@.len() as int).len(),
        forall|k: int|
            0 <= k < r.paragraphs@.len() ==> #[trigger] par_entry_ok(
                r.paragraphs@,
                nodes@,
                nodes@.len() as int,
                k,
            ),
{
    let mut doc = DocumentDraw::new_empty();
    match sect {
        Some(s) => {
            doc.sect_properties = s;
        },
        None => {},
    }
    let n = nodes.len();
    let mut k: usize = 0;
    proof {
        reveal_with_fuel(par_node_idxs, 1);
    }
    while k < n
        invariant
            k <= n,
            n == nodes@.len(),
            forall|j: int| #![trigger nodes@[j]]
                0 <= j < nodes@.len() ==> (nodes@[j] matches crate::docx::DocxNode::Paragrapth {
                    properties,
                    ..
                } ==> properties.wf()),
            doc.words_wf(),
            doc.scroll == 100,
            doc.scale == 100,
            doc.pages@.len() == 0,
            doc.cursor_prims@.len() == 0,
            doc.cursor == Cursor::Normal(CursorPos { par_idx: 0, line_idx: 0, char_idx: 0 }),
            (sect matches Some(s) ==> doc.sect_properties == s),
            doc.paragraphs@.len() == par_node_idxs(nodes@, k as int).len(),
            forall|q: int|
                0 <= q < doc.paragraphs@.len() ==> #[trigger] par_entry_ok(
                    doc.paragraphs@,
                    nodes@,
                    k as int,
                    q,
                ),
        decreases n - k,
    {
        proof {
            lemma_par_node_idxs_snoc(nodes@, k as int);
        }
        let ghost prev = doc.paragraphs@;
        match &nodes[k] {
            crate::docx::DocxNode::Paragrapth { properties, texts, .. } => {
                let words = crate::segmenter::get_words(texts);
                let par = Paragraph { properties: properties.clone(), words, lines: Vec::new() };
                proof {
                    assert(par_from_node(par, nodes@[k as int]));
                }
                doc.paragraphs.push(par);
                proof {
                    assert forall|q: int|
                        0 <= q < doc.paragraphs@.len() implies #[trigger] par_entry_ok(
                        doc.paragraphs@,
                        nodes@,
                        k as int + 1,
                        q,
                    ) by {
                        if q < prev.len() {
                            assert(par_entry_ok(prev, nodes@, k as int, q));
                            assert(doc.paragraphs@[q] == prev[q]);
                            assert(par_node_idxs(nodes@, k as int + 1)[q] == par_node_idxs(
                                nodes@,
                                k as int,
                            )[q]);
                        } else {
                            assert(doc.paragraphs@[q] == par);
                            assert(par_node_idxs(nodes@, k as int + 1)[q] == k as int);
                        }
                    };
                    assert forall|p: int|
                        0 <= p < doc.paragraphs@.len() implies (
                    #[trigger] doc.paragraphs@[p]).words_wf() by {
                        if p < prev.len() {
                            assert(doc.paragraphs@[p] == prev[p]);
                        }
                    };
                }
            },
            _ => {
                proof {
                    assert(!(nodes@[k as int] is Paragrapth));
                    assert(par_node_idxs(nodes@, k as int + 1) == par_node_idxs(
                        nodes@,
                        k as int,
                    ));
                    assert forall|q: int|
                        0 <= q < doc.paragraphs@.len() implies #[trigger] par_entry_ok(
                        doc.paragraphs@,
                        nodes@,
                        k as int + 1,
                        q,
                    ) by {
                        assert(par_entry_ok(doc.paragraphs@, nodes@, k as int, q));
                    };
                }
            },
        }
        k += 1;
    }
    doc
}

/// The number of lines the first `upto` paragraphs hold, flattened.
#[verifier::opaque]
pub open spec fn flat_lines(pars: Seq<Paragraph>, upto: int) -> int
    decreases upto,
{
    if upto <= 0 {
        0
    } else {
        flat_lines(pars, upto - 1) + pars[upto - 1].lines@.len()
    }
}

/// One unfolding step of `flat_lines`.
proof fn lemma_flat_lines_snoc(pars: Seq<Paragraph>, k: int)
    requires
        0 <= k,
    ensures
        flat_lines(pars, k + 1) == flat_lines(pars, k) + pars[k].lines@.len(),
{
    reveal_with_fuel(flat_lines, 2);
}

/// `flat_lines` is non-negative.
proof fn lemma_flat_lines_nonneg(pars: Seq<Paragraph>, a: int)
    ensures
        0 <= flat_lines(pars, a),
    decreases a,
{
    reveal_with_fuel(flat_lines, 2);
    if a > 0 {
        lemma_flat_lines_nonneg(pars, a - 1);
    }
}

/// `flat_lines` is monotone and non-negative.
proof fn lemma_flat_lines_monotone(pars: Seq<Paragraph>, a: int, b: int)
    requires
        0 <= a <= b,
    ensures
        0 <= flat_lines(pars, a) <= flat_lines(pars, b),
    decreases b - a,
{
    lemma_flat_lines_nonneg(pars, a);
    if a < b {
        lemma_flat_lines_monotone(pars, a, b - 1);
        lemma_flat_lines_snoc(pars, b - 1);
    }
}

/// `flat_lines` reads only the first `upto` paragraphs.
proof fn lemma_flat_lines_congruent(p1: Seq<Paragraph>, p2: Seq<Paragraph>, upto: int)
    requires
        forall|q: int| 0 <= q < upto ==> (#[trigger] p1[q]).lines@ == p2[q].lines@,
    ensures
        flat_lines(p1, upto) == flat_lines(p2, upto),
    decreases upto,
{
    reveal_with_fuel(flat_lines, 2);
    if upto > 0 {
        lemma_flat_lines_congruent(p1, p2, upto - 1);
    }
}

/// The caret and highlight primitives the first `upto` lines of a
/// paragraph contribute, each line drawn against its own content
/// rectangle from `rects` (its flat index starting at `base`).
#[verifier::opaque]
pub open spec fn par_caret_prims(
    cursor: Cursor,
    color: Color,
    p: usize,
    par: Paragraph,
    rects: Seq<Rectangle>,
    base: int,
    upto: int,
) -> Seq<Primitive>
    decreases upto,
{
    if upto <= 0 {
        Seq::<Primitive>::empty()
    } else {
        par_caret_prims(cursor, color, p, par, rects, base, upto - 1) + cursor_line_prims(
            cursor,
            p,
            (upto - 1) as usize,
            par.words@,
            par.lines@[upto - 1],
            rects[base + upto - 1],
            color,
            None,
        )
    }
}

/// One unfolding step of `par_caret_prims`.
proof fn lemma_par_caret_snoc(
    cursor: Cursor,
    color: Color,
    p: usize,
    par: Paragraph,
    rects: Seq<Rectangle>,
    base: int,
    k: int,
)
    requires
        0 <= k,
    ensures
        par_caret_prims(cursor, color, p, par, rects, base, k + 1) == par_caret_prims(
            cursor,
            color,
            p,
            par,
            rects,
            base,
            k,
        ) + cursor_line_prims(
            cursor,
            p,
            k as usize,
            par.words@,
            par.lines@[k],
            rects[base + k],
            color,
            None,
        ),
{
    reveal_with_fuel(par_caret_prims, 2);
}

/// The caret and highlight primitives of the first `upto` paragraphs,
/// in order.
#[verifier::opaque]
pub open spec fn doc_caret_prims(
    cursor: Cursor,
    color: Color,
    pars: Seq<Paragraph>,
    rects: Seq<Rectangle>,
    upto: int,
) -> Seq<Primitive>
    decreases upto,
{
    if upto <= 0 {
        Seq::<Primitive>::empty()
    } else {
        doc_caret_prims(cursor, color, pars, rects, upto - 1) + par_caret_prims(
            cursor,
            color,
            (upto - 1) as usize,
            pars[upto - 1],
            rects,
            flat_lines(pars, upto - 1),
            pars[upto - 1].lines@.len() as int,
        )
    }
}

/// One unfolding step of `doc_caret_prims`.
proof fn lemma_doc_caret_snoc(
    cursor: Cursor,
    color: Color,
    pars: Seq<Paragraph>,
    rects: Seq<Rectangle>,
    k: int,
)
    requires
        0 <= k,
    ensures
        doc_caret_prims(cursor, color, pars, rects, k + 1) == doc_caret_prims(
            cursor,
            color,
            pars,
            rects,
            k,
        ) + par_caret_prims(
            cursor,
            color,
            k as usize,
            pars[k],
            rects,
            flat_lines(pars, k),
            pars[k].lines@.len() as int,
        ),
{
    reveal_with_fuel(doc_caret_prims, 2);
}

/// A paragraph fold is unchanged by appending content rectangles past
/// the ones it reads.
proof fn lemma_par_caret_push_rect(
    cursor: Cursor,
    color: Color,
    p: usize,
    par: Paragraph,
    rects: Seq<Rectangle>,
    r: Rectangle,
    base: int,
    upto: int,
)
    requires
        0 <= base,
        base + upto <= rects.len(),
    ensures
        par_caret_prims(cursor, color, p, par, rects.push(r), base, upto) == par_caret_prims(
            cursor,
            color,
            p,
            par,
            rects,
            base,
            upto,
        ),
    decreases upto,
{
    reveal_with_fuel(par_caret_prims, 2);
    if upto > 0 {
        lemma_par_caret_push_rect(cursor, color, p, par, rects, r, base, upto - 1);
        assert(rects.push(r)[base + upto - 1] == rects[base + upto - 1]);
    }
}

/// A document fold is unchanged by appending content rectangles past
/// the ones it reads.
proof fn lemma_doc_caret_push_rect(
    cursor: Cursor,
    color: Color,
    pars: Seq<Paragraph>,
    rects: Seq<Rectangle>,
    r: Rectangle,
    upto: int,
)
    requires
        flat_lines(pars, upto) <= rects.len(),
    ensures
        doc_caret_prims(cursor, color, pars, rects.push(r), upto) == doc_caret_prims(
            cursor,
            color,
            pars,
            rects,
            upto,
        ),
    decreases upto,
{
    reveal_with_fuel(doc_caret_prims, 2);
    if upto > 0 {
        lemma_flat_lines_snoc(pars, upto - 1);
        lemma_flat_lines_monotone(pars, 0, upto - 1);
        lemma_doc_caret_push_rect(cursor, color, pars, rects, r, upto - 1);
        lemma_par_caret_push_rect(
            cursor,
            color,
            (upto - 1) as usize,
            pars[upto - 1],
            rects,
            r,
            flat_lines(pars, upto - 1),
            pars[upto - 1].lines@.len() as int,
        );
    }
}

/// The justification metrics the relayout uses for one line: the
/// horizontal start offset and the spacing policy (the default pair
/// for a line whose word count cannot be represented).
pub open spec fn spec_line_vmetrics(
    justify: Option<crate::props::Justification>,
    cw: int,
    line: Line,
) -> (int, VerticalSpacing) {
    if !(line.range_end as int <= MAX_COORD as int) {
        (0, VerticalSpacing::Relative(DEFAULT_VERTICAL_SPACING))
    } else {
        let mw = line.min_width as int;
        let ws = line.width_with_spacing as int;
        let n = line.range_end as int - line.range_start as int;
        match justify {
            Some(crate::props::Justification::Width) => (
                0,
                VerticalSpacing::Absolute(
                    (if n == 0 {
                        0int
                    } else {
                        crate::num::tdiv(cw - mw, n)
                    }) as i64,
                ),
            ),
            Some(crate::props::Justification::Center) => (
                crate::num::tdiv(cw - ws, 2),
                VerticalSpacing::Relative(DEFAULT_VERTICAL_SPACING),
            ),
            Some(crate::props::Justification::End) => (
                cw - ws,
                VerticalSpacing::Relative(DEFAULT_VERTICAL_SPACING),
            ),
            _ => (0, VerticalSpacing::Relative(DEFAULT_VERTICAL_SPACING)),
        }
    }
}

/// The width the line breaker got from a content rectangle.
pub open spec fn rect_cw(r: Rectangle) -> int {
    let w = clip(r.right_bottom.x - r.left_top.x);
    if w < 0 {
        0
    } else {
        w
    }
}

/// Word `i` of the line is placed: every text segment sits at the pen
/// position, top-aligned within the line at the zoomed correction.
pub open spec fn word_glyphs_placed(
    words: Seq<Word>,
    line: Line,
    i: int,
    content: Rectangle,
    voff: int,
    vsp: VerticalSpacing,
    scale: int,
) -> bool {
    forall|j: int|
        0 <= j < words[i].glyphs_views@.len() ==> ({
            let gp = (#[trigger] words[i].glyphs_views@[j]).primitive.prop;
            gp matches PrimitiveProperties::PlainText(pt) ==> ({
                let pen = crate::lines::word_place(
                    crate::lines::line_place(words, line.range_start as int, i, voff, vsp).0,
                    crate::lines::line_place(words, line.range_start as int, i, voff, vsp).1,
                    words[i].glyphs_views@,
                    j,
                );
                pt.left_top.x as int == clip(content.left_top.x + pen.0) && pt.left_top.y as int
                    == clip(
                    content.left_top.y + clip(
                        crate::num::tdiv((line.height - pt.size.height) * scale, 100),
                    ),
                )
            })
        })
}

/// Line `li` of the paragraph is placed against its content rectangle,
/// with the justification metrics computed from the given width.
pub open spec fn line_glyphs_placed(
    par: Paragraph,
    li: int,
    content: Rectangle,
    cw: int,
    scale: int,
) -> bool {
    let line = par.lines@[li];
    let vm = spec_line_vmetrics(par.properties.justify, cw, line);
    forall|i: int|
        line.range_start <= i < line.range_end ==> #[trigger] word_glyphs_placed(
            par.words@,
            line,
            i,
            content,
            vm.0,
            vm.1,
            scale,
        )
}

/// Every line of the paragraph is placed; the first line's rectangle
/// also fixes the width the justifier used.
pub open spec fn par_glyphs_placed(
    par: Paragraph,
    rects: Seq<Rectangle>,
    base: int,
    scale: int,
) -> bool {
    forall|li: int|
        0 <= li < par.lines@.len() ==> line_glyphs_placed(
            par,
            li,
            #[trigger] rects[base + li],
            rect_cw(rects[base]),
            scale,
        )
}

/// Placement is unchanged by appending content rectangles past the
/// ones the paragraph reads.
proof fn lemma_par_glyphs_push_rect(
    par: Paragraph,
    rects: Seq<Rectangle>,
    r: Rectangle,
    base: int,
    scale: int,
)
    requires
        0 <= base,
        base + par.lines@.len() <= rects.len(),
        par_glyphs_placed(par, rects, base, scale),
    ensures
        par_glyphs_placed(par, rects.push(r), base, scale),
{
    assert forall|li: int| 0 <= li < par.lines@.len() implies line_glyphs_placed(
        par,
        li,
        #[trigger] rects.push(r)[base + li],
        rect_cw(rects.push(r)[base]),
        scale,
    ) by {
        assert(rects.push(r)[base + li] == rects[base + li]);
        assert(rects.push(r)[base] == rects[base]);
    };
}

/// A placed line stays placed when words outside its range change.
proof fn lemma_line_glyphs_words_congruent(
    par1: Paragraph,
    par2: Paragraph,
    li: int,
    content: Rectangle,
    cw: int,
    scale: int,
)
    requires
        par1.lines@ == par2.lines@,
        par1.properties == par2.properties,
        0 <= li < par1.lines@.len(),
        forall|w: int|
            par1.lines@[li].range_start <= w < par1.lines@[li].range_end ==> (
            #[trigger] par1.words@[w]) == par2.words@[w],
        line_glyphs_placed(par1, li, content, cw, scale),
    ensures
        line_glyphs_placed(par2, li, content, cw, scale),
{
    let line = par1.lines@[li];
    let vm = spec_line_vmetrics(par1.properties.justify, cw, line);
    assert forall|i: int| line.range_start <= i < line.range_end implies #[trigger] word_glyphs_placed(
        par2.words@,
        line,
        i,
        content,
        vm.0,
        vm.1,
        scale,
    ) by {
        assert(word_glyphs_placed(par1.words@, line, i, content, vm.0, vm.1, scale));
        assert forall|w: int|
            line.range_start <= w < i implies crate::lines::same_advances(
            (#[trigger] par1.words@[w]).glyphs_views@,
            par2.words@[w].glyphs_views@,
        ) by {
            assert(par1.words@[w] == par2.words@[w]);
        };
        crate::lines::lemma_line_place_congruent(
            par1.words@,
            par2.words@,
            line.range_start as int,
            i,
            vm.0,
            vm.1,
        );
        assert(par1.words@[i] == par2.words@[i]);
    };
}

/// The caret rectangle reads only the words of its range.
proof fn lemma_cursor_rect_congruent(
    a: Seq<Word>,
    b: Seq<Word>,
    s: int,
    e: int,
    char_idx: int,
    content: Rectangle,
    lh: int,
    cx: Option<i64>,
)
    requires
        forall|w: int| s <= w < e ==> a[w] == b[w],
    ensures
        spec_cursor_rect(a, s, e, char_idx, content, lh, cx) == spec_cursor_rect(
            b,
            s,
            e,
            char_idx,
            content,
            lh,
            cx,
        ),
    decreases e - s,
{
    if s < e {
        lemma_cursor_rect_congruent(a, b, s + 1, e, char_idx - a[s].word@.len() - 1, content, lh, cx);
    }
}

/// A line's caret primitives read only the line's words.
proof fn lemma_line_prims_congruent(
    cursor: Cursor,
    p: usize,
    li: usize,
    a: Seq<Word>,
    b: Seq<Word>,
    line: Line,
    content: Rectangle,
    color: Color,
)
    requires
        forall|w: int| line.range_start <= w < line.range_end ==> a[w] == b[w],
    ensures
        cursor_line_prims(cursor, p, li, a, line, content, color, None) == cursor_line_prims(
            cursor,
            p,
            li,
            b,
            line,
            content,
            color,
            None,
        ),
{
    match cursor.spec_match_par_line(p, li) {
        LineRelativePosition::Exact(pos) => {
            lemma_cursor_rect_congruent(
                a,
                b,
                line.range_start as int,
                line.range_end as int,
                pos as int,
                content,
                line.height as int,
                None,
            );
        },
        LineRelativePosition::ExactStart(start) => {
            lemma_cursor_rect_congruent(
                a,
                b,
                line.range_start as int,
                line.range_end as int,
                start as int,
                content,
                line.height as int,
                None,
            );
        },
        LineRelativePosition::ExactEnd(end) => {
            lemma_cursor_rect_congruent(
                a,
                b,
                line.range_start as int,
                line.range_end as int,
                end as int,
                content,
                line.height as int,
                None,
            );
        },
        _ => {},
    }
}

/// A paragraph's caret fold reads only the words of its processed
/// lines' ranges.
proof fn lemma_par_caret_words_congruent(
    cursor: Cursor,
    color: Color,
    p: usize,
    par1: Paragraph,
    par2: Paragraph,
    rects: Seq<Rectangle>,
    base: int,
    upto: int,
)
    requires
        par1.lines@ == par2.lines@,
        forall|i: int, w: int|
            0 <= i < upto && (#[trigger] par1.lines@[i]).range_start <= w
                < par1.lines@[i].range_end ==> (#[trigger] par1.words@[w]) == par2.words@[w],
    ensures
        par_caret_prims(cursor, color, p, par1, rects, base, upto) == par_caret_prims(
            cursor,
            color,
            p,
            par2,
            rects,
            base,
            upto,
        ),
    decreases upto,
{
    reveal_with_fuel(par_caret_prims, 2);
    if upto > 0 {
        lemma_par_caret_words_congruent(cursor, color, p, par1, par2, rects, base, upto - 1);
        lemma_line_prims_congruent(
            cursor,
            p,
            (upto - 1) as usize,
            par1.words@,
            par2.words@,
            par1.lines@[upto - 1],
            rects[base + upto - 1],
            color,
        );
    }
}

/// The document's caret fold reads only the first `upto` paragraphs.
proof fn lemma_doc_caret_congruent(
    cursor: Cursor,
    color: Color,
    p1: Seq<Paragraph>,
    p2: Seq<Paragraph>,
    rects: Seq<Rectangle>,
    upto: int,
)
    requires
        forall|q: int| 0 <= q < upto ==> (#[trigger] p1[q]) == p2[q],
    ensures
        doc_caret_prims(cursor, color, p1, rects, upto) == doc_caret_prims(
            cursor,
            color,
            p2,
            rects,
            upto,
        ),
    decreases upto,
{
    reveal_with_fuel(doc_caret_prims, 2);
    if upto > 0 {
        lemma_doc_caret_congruent(cursor, color, p1, p2, rects, upto - 1);
        assert forall|q: int| 0 <= q < upto - 1 implies (#[trigger] p1[q]).lines@
            == p2[q].lines@ by {};
        lemma_flat_lines_congruent(p1, p2, upto - 1);
    }
}

/// The zero rectangle, standing for a caret position with no geometry.
pub open spec fn spec_empty_rect() -> Rectangle {
    Rectangle { left_top: Point { x: 0, y: 0 }, right_bottom: Point { x: 0, y: 0 } }
}

/// The x of a word's trailing edge: the right edge of its last segment,
/// or the content left edge for a word with no segments.
pub open spec fn word_exit_x(w: Word, content: Rectangle) -> i64 {
    if w.glyphs_views@.len() > 0 {
        prim_rect(w.glyphs_views@.last().primitive.prop).right_bottom.x
    } else {
        content.left_top.x
    }
}

/// The x of a word's leading edge: the left edge of its first segment,
/// or the content right edge for a word with no segments.
pub open spec fn word_entry_x(w: Word, content: Rectangle) -> i64 {
    if w.glyphs_views@.len() > 0 {
        prim_rect(w.glyphs_views@[0].primitive.prop).left_top.x
    } else {
        content.right_bottom.x
    }
}

/// The caret rectangle for grapheme position `char_idx` among the words
/// `[s, e)` of a line (word boundaries count one position each).
/// Between two words the caret spans from the left word's trailing edge
/// to the right word's leading edge; inside a word it is a zero-width
/// bar at `caret_x` (empty when no x is supplied); past the line's
/// words it is empty.
pub open spec fn spec_cursor_rect(
    words: Seq<Word>,
    s: int,
    e: int,
    char_idx: int,
    content: Rectangle,
    line_height: int,
    caret_x: Option<i64>,
) -> Rectangle
    decreases e - s,
{
    if s >= e {
        spec_empty_rect()
    } else {
        let len = words[s].word@.len() as int;
        if len < char_idx {
            spec_cursor_rect(words, s + 1, e, char_idx - len - 1, content, line_height, caret_x)
        } else if len == char_idx {
            if s + 1 < e {
                Rectangle {
                    left_top: Point { x: word_exit_x(words[s], content), y: content.left_top.y },
                    right_bottom: Point {
                        x: word_entry_x(words[s + 1], content),
                        y: clip(content.left_top.y + line_height) as i64,
                    },
                }
            } else {
                spec_empty_rect()
            }
        } else {
            match caret_x {
                Some(x) => Rectangle {
                    left_top: Point { x: x, y: content.left_top.y },
                    right_bottom: Point {
                        x: x,
                        y: clip(content.left_top.y + line_height) as i64,
                    },
                },
                None => spec_empty_rect(),
            }
        }
    }
}

/// The caret rectangle for `char_idx` on the given line, walking the
/// line's words as `spec_cursor_rect` says.
pub fn get_cursor_rect(
    words: &Vec<Word>,
    line: &Line,
    char_idx: usize,
    content_rect: Rectangle,
    caret_x: Option<i64>,
) -> (r: Rectangle)
    requires
        line.range_start <= line.range_end <= words@.len(),
        forall|w: int|
            line.range_start <= w < line.range_end ==> (#[trigger] words@[w]).metrics_wf(),
        content_rect.wf(),
        0 <= line.height as int <= MAX_COORD as int,
        (caret_x matches Some(x) ==> in_range(x as int)),
    ensures
        r == spec_cursor_rect(
            words@,
            line.range_start as int,
            line.range_end as int,
            char_idx as int,
            content_rect,
            line.height as int,
            caret_x,
        ),
        r.wf(),
{
    let e = line.range_end;
    let mut w = line.range_start;
    let mut d = char_idx;
    while w < e
        invariant
            line.range_start <= w <= e,
            e == line.range_end,
            e <= words@.len(),
            forall|q: int|
                line.range_start <= q < line.range_end ==> (#[trigger] words@[q]).metrics_wf(),
            content_rect.wf(),
            0 <= line.height as int <= MAX_COORD as int,
            (caret_x matches Some(x) ==> in_range(x as int)),
            spec_cursor_rect(
                words@,
                line.range_start as int,
                e as int,
                char_idx as int,
                content_rect,
                line.height as int,
                caret_x,
            ) == spec_cursor_rect(
                words@,
                w as int,
                e as int,
                d as int,
                content_rect,
                line.height as int,
                caret_x,
            ),
        decreases e - w,
    {
        let len = words[w].word.len();
        if len < d {
            d = d - len - 1;
            w = w + 1;
        } else if len == d {
            if w + 1 < e {
                let px = if words[w].glyphs_views.len() > 0 {
                    let gl = words[w].glyphs_views.len() - 1;
                    proof {
                        assert(words@[w as int].metrics_wf());
                    }
                    words[w].glyphs_views[gl].primitive.get_rect().right_bottom.x
                } else {
                    content_rect.left_top.x
                };
                let fx = if words[w + 1].glyphs_views.len() > 0 {
                    proof {
                        assert(words@[w as int + 1].metrics_wf());
                    }
                    words[w + 1].glyphs_views[0].primitive.get_rect().left_top.x
                } else {
                    content_rect.right_bottom.x
                };
                let bottom = cadd(content_rect.left_top.y, line.height);
                let r = Rectangle {
                    left_top: Point { x: px, y: content_rect.left_top.y },
                    right_bottom: Point { x: fx, y: bottom },
                };
                proof {
                    assert(px == word_exit_x(words@[w as int], content_rect));
                    assert(fx == word_entry_x(words@[w as int + 1], content_rect));
                    if words@[w as int].glyphs_views@.len() > 0 {
                        assert(words@[w as int].glyphs_views@.last().primitive.metric_wf());
                    }
                    if words@[w as int + 1].glyphs_views@.len() > 0 {
                        assert(words@[w as int + 1].glyphs_views@[0].primitive.metric_wf());
                    }
                }
                return r;
            } else {
                return Rectangle {
                    left_top: Point { x: 0, y: 0 },
                    right_bottom: Point { x: 0, y: 0 },
                };
            }
        } else {
            match caret_x {
                Some(x) => {
                    let bottom = cadd(content_rect.left_top.y, line.height);
                    return Rectangle {
                        left_top: Point { x, y: content_rect.left_top.y },
                        right_bottom: Point { x, y: bottom },
                    };
                },
                None => {
                    return Rectangle {
                        left_top: Point { x: 0, y: 0 },
                        right_bottom: Point { x: 0, y: 0 },
                    };
                },
            }
        }
    }
    Rectangle { left_top: Point { x: 0, y: 0 }, right_bottom: Point { x: 0, y: 0 } }
}

/// The caret or selection-highlight primitives a line contributes: by
/// how the line relates to the cursor, nothing, the caret rectangle, a
/// highlight from the selection start to the content right edge, one
/// from the content left edge to the selection end, or the full line.
pub open spec fn cursor_line_prims(
    cursor: Cursor,
    par_idx: usize,
    line_idx: usize,
    words: Seq<Word>,
    line: Line,
    content: Rectangle,
    color: Color,
    caret_x: Option<i64>,
) -> Seq<Primitive> {
    match cursor.spec_match_par_line(par_idx, line_idx) {
        LineRelativePosition::Outside => Seq::<Primitive>::empty(),
        LineRelativePosition::Exact(pos) => seq![
            (Primitive {
                prop: PrimitiveProperties::Rect {
                    rect: spec_cursor_rect(
                        words,
                        line.range_start as int,
                        line.range_end as int,
                        pos as int,
                        content,
                        line.height as int,
                        caret_x,
                    ),
                    color,
                },
            }),
        ],
        LineRelativePosition::ExactStart(start) => ({
            let r0 = spec_cursor_rect(
                words,
                line.range_start as int,
                line.range_end as int,
                start as int,
                content,
                line.height as int,
                caret_x,
            );
            seq![
                (Primitive {
                    prop: PrimitiveProperties::Rect {
                        rect: Rectangle::spec_new(
                            Point { x: r0.left_top.x, y: content.left_top.y },
                            Size {
                                width: clip(content.right_bottom.x - r0.left_top.x) as i64,
                                height: content.right_bottom.x,
                            },
                        ),
                        color,
                    },
                }),
            ]
        }),
        LineRelativePosition::ExactEnd(end) => ({
            let r0 = spec_cursor_rect(
                words,
                line.range_start as int,
                line.range_end as int,
                end as int,
                content,
                line.height as int,
                caret_x,
            );
            seq![
                (Primitive {
                    prop: PrimitiveProperties::Rect {
                        rect: Rectangle::spec_new(
                            content.left_top,
                            Size {
                                width: clip(r0.left_top.x - content.left_top.x) as i64,
                                height: line.height,
                            },
                        ),
                        color,
                    },
                }),
            ]
        }),
        LineRelativePosition::Inside => seq![
            (Primitive {
                prop: PrimitiveProperties::Rect {
                    rect: Rectangle::spec_new(
                        content.left_top,
                        Size {
                            width: clip(content.right_bottom.x - content.left_top.x) as i64,
                            height: line.height,
                        },
                    ),
                    color,
                },
            }),
        ],
    }
}

/// Append the line's caret or selection-highlight primitives, as
/// `cursor_line_prims` says.  The x of a caret that falls inside a word
/// comes from the font rasteriser and is passed in as `caret_x`; with
/// none supplied such a caret is empty.
pub fn update_cursor_prims(
    prims: &mut Vec<Primitive>,
    selection_color: Color,
    cursor: &Cursor,
    par_idx: usize,
    line_idx: usize,
    par: &Paragraph,
    line: &Line,
    content_rect: Rectangle,
    caret_x: Option<i64>,
)
    requires
        par.words_wf(),
        line.range_start <= line.range_end <= par.words@.len(),
        content_rect.wf(),
        0 <= line.height as int <= MAX_COORD as int,
        (caret_x matches Some(x) ==> in_range(x as int)),
    ensures
        final(prims)@ == old(prims)@ + cursor_line_prims(
            *cursor,
            par_idx,
            line_idx,
            par.words@,
            *line,
            content_rect,
            selection_color,
            caret_x,
        ),
{
    let ghost expect = cursor_line_prims(
        *cursor,
        par_idx,
        line_idx,
        par.words@,
        *line,
        content_rect,
        selection_color,
        caret_x,
    );
    match cursor.match_par_line(par_idx, line_idx) {
        LineRelativePosition::Exact(pos) => {
            let rect = get_cursor_rect(&par.words, line, pos, content_rect, caret_x);
            prims.push(Primitive { prop: PrimitiveProperties::Rect { rect, color: selection_color } });
            proof {
                assert(prims@ =~= old(prims)@ + expect);
            }
        },
        LineRelativePosition::ExactStart(start) => {
            let rect = get_cursor_rect(&par.words, line, start, content_rect, caret_x);
            let hl = Rectangle::new(
                Point { x: rect.left_top.x, y: content_rect.left_top.y },
                Size {
                    width: csub(content_rect.right_bottom.x, rect.left_top.x),
                    height: content_rect.right_bottom.x,
                },
            );
            prims.push(Primitive {
                prop: PrimitiveProperties::Rect { rect: hl, color: selection_color },
            });
            proof {
                assert(prims@ =~= old(prims)@ + expect);
            }
        },
        LineRelativePosition::ExactEnd(end) => {
            let rect = get_cursor_rect(&par.words, line, end, content_rect, caret_x);
            let hl = Rectangle::new(
                content_rect.left_top,
                Size { width: csub(rect.left_top.x, content_rect.left_top.x), height: line.height },
            );
            prims.push(Primitive {
                prop: PrimitiveProperties::Rect { rect: hl, color: selection_color },
            });
            proof {
                assert(prims@ =~= old(prims)@ + expect);
            }
        },
        LineRelativePosition::Inside => {
            let hl = Rectangle::new(
                content_rect.left_top,
                Size {
                    width: csub(content_rect.right_bottom.x, content_rect.left_top.x),
                    height: line.height,
                },
            );
            prims.push(Primitive {
                prop: PrimitiveProperties::Rect { rect: hl, color: selection_color },
            });
            proof {
                assert(prims@ =~= old(prims)@ + expect);
            }
        },
        LineRelativePosition::Outside => {
            proof {
                assert(prims@ =~= old(prims)@ + expect);
            }
        },
    }
}

impl DocumentDraw {
    /// Re-scale every materialised glyph primitive by the ratio
    /// `num / den` and divide every cached line metric by the same ratio
    /// (each clamped into the coordinate range first), skipping a full
    /// relayout.  Texts, segments, pages, cursor and colors are untouched.
    pub fn scale_by_ratio(&mut self, num: i64, den: i64)
        requires
            old(self).words_wf(),
            1 <= num <= MAX_DIM,
            1 <= den <= MAX_DIM,
        ensures
            final(self).words_wf(),
            final(self).cursor == old(self).cursor,
            final(self).scroll == old(self).scroll,
            final(self).scale == old(self).scale,
            final(self).pages == old(self).pages,
            final(self).cursor_prims == old(self).cursor_prims,
            final(self).bg_color == old(self).bg_color,
            final(self).selection_color == old(self).selection_color,
            final(self).sect_properties == old(self).sect_properties,
            final(self).paragraphs@.len() == old(self).paragraphs@.len(),
            forall|p: int|
                0 <= p < old(self).paragraphs@.len() ==> par_rescaled(
                    old(self).paragraphs@[p],
                    #[trigger] final(self).paragraphs@[p],
                    num as int,
                    den as int,
                ),
    {
        let pn = self.paragraphs.len();
        let mut p: usize = 0;
        while p < pn
            invariant
                p <= pn,
                pn == self.paragraphs@.len(),
                pn == old(self).paragraphs@.len(),
                1 <= num <= MAX_DIM,
                1 <= den <= MAX_DIM,
                self.cursor == old(self).cursor,
                self.scroll == old(self).scroll,
                self.scale == old(self).scale,
                self.pages == old(self).pages,
                self.sect_properties == old(self).sect_properties,
                self.bg_color == old(self).bg_color,
                self.selection_color == old(self).selection_color,
                self.cursor_prims == old(self).cursor_prims,
                10 <= self.scale <= 200,
                in_range(self.scroll as int),
                self.sect_properties.wf(),
                forall|q: int| 0 <= q < pn ==> (#[trigger] self.paragraphs@[q]).words_wf(),
                forall|q: int|
                    p <= q < pn ==> (#[trigger] self.paragraphs@[q]) == old(self).paragraphs@[q],
                forall|q: int|
                    0 <= q < p ==> par_rescaled(
                        old(self).paragraphs@[q],
                        #[trigger] self.paragraphs@[q],
                        num as int,
                        den as int,
                    ),
            decreases pn - p,
        {
            let wn = self.paragraphs[p].words.len();
            let mut w: usize = 0;
            while w < wn
                invariant
                    w <= wn,
                    p < pn,
                    pn == self.paragraphs@.len(),
                    pn == old(self).paragraphs@.len(),
                    wn == self.paragraphs@[p as int].words@.len(),
                    1 <= num <= MAX_DIM,
                    1 <= den <= MAX_DIM,
                    self.cursor == old(self).cursor,
                    self.scroll == old(self).scroll,
                    self.scale == old(self).scale,
                    self.pages == old(self).pages,
                    self.sect_properties == old(self).sect_properties,
                    self.bg_color == old(self).bg_color,
                    self.selection_color == old(self).selection_color,
                    self.cursor_prims == old(self).cursor_prims,
                    10 <= self.scale <= 200,
                    in_range(self.scroll as int),
                    self.sect_properties.wf(),
                    forall|q: int| 0 <= q < pn ==> (#[trigger] self.paragraphs@[q]).words_wf(),
                    forall|q: int|
                        p < q < pn ==> (#[trigger] self.paragraphs@[q]) == old(
                            self,
                        ).paragraphs@[q],
                    forall|q: int|
                        0 <= q < p ==> par_rescaled(
                            old(self).paragraphs@[q],
                            #[trigger] self.paragraphs@[q],
                            num as int,
                            den as int,
                        ),
                    self.paragraphs@[p as int].properties == old(
                        self,
                    ).paragraphs@[p as int].properties,
                    self.paragraphs@[p as int].lines == old(self).paragraphs@[p as int].lines,
                    forall|wi: int|
                        w <= wi < wn ==> (#[trigger] self.paragraphs@[p as int].words@[wi]) == old(
                            self,
                        ).paragraphs@[p as int].words@[wi],
                    forall|wi: int|
                        0 <= wi < w ==> word_rescaled(
                            old(self).paragraphs@[p as int].words@[wi],
                            #[trigger] self.paragraphs@[p as int].words@[wi],
                            num as int,
                            den as int,
                        ),
                decreases wn - w,
            {
                let gn = self.paragraphs[p].words[w].glyphs_views.len();
                let mut g: usize = 0;
                while g < gn
                    invariant
                        g <= gn,
                        p < pn,
                        w < wn,
                        pn == self.paragraphs@.len(),
                        pn == old(self).paragraphs@.len(),
                        wn == self.paragraphs@[p as int].words@.len(),
                        gn == self.paragraphs@[p as int].words@[w as int].glyphs_views@.len(),
                        gn == old(self).paragraphs@[p as int].words@[w as int].glyphs_views@.len(),
                        1 <= num <= MAX_DIM,
                        1 <= den <= MAX_DIM,
                        self.cursor == old(self).cursor,
                        self.scroll == old(self).scroll,
                        self.scale == old(self).scale,
                        self.pages == old(self).pages,
                        self.sect_properties == old(self).sect_properties,
                        self.bg_color == old(self).bg_color,
                        self.selection_color == old(self).selection_color,
                        self.cursor_prims == old(self).cursor_prims,
                        10 <= self.scale <= 200,
                        in_range(self.scroll as int),
                        self.sect_properties.wf(),
                        forall|q: int|
                            0 <= q < pn ==> (#[trigger] self.paragraphs@[q]).words_wf(),
                        forall|q: int|
                            p < q < pn ==> (#[trigger] self.paragraphs@[q]) == old(
                                self,
                            ).paragraphs@[q],
                        forall|q: int|
                            0 <= q < p ==> par_rescaled(
                                old(self).paragraphs@[q],
                                #[trigger] self.paragraphs@[q],
                                num as int,
                                den as int,
                            ),
                        self.paragraphs@[p as int].properties == old(
                            self,
                        ).paragraphs@[p as int].properties,
                        self.paragraphs@[p as int].lines == old(self).paragraphs@[p as int].lines,
                        forall|wi: int|
                            w < wi < wn ==> (#[trigger] self.paragraphs@[p as int].words@[wi])
                                == old(self).paragraphs@[p as int].words@[wi],
                        forall|wi: int|
                            0 <= wi < w ==> word_rescaled(
                                old(self).paragraphs@[p as int].words@[wi],
                                #[trigger] self.paragraphs@[p as int].words@[wi],
                                num as int,
                                den as int,
                            ),
                        self.paragraphs@[p as int].words@[w as int].word@ == old(
                            self,
                        ).paragraphs@[p as int].words@[w as int].word@,
                        self.paragraphs@[p as int].words@[w as int].segs() == old(
                            self,
                        ).paragraphs@[p as int].words@[w as int].segs(),
                        forall|gi: int|
                            0 <= gi < gn ==> (
                            #[trigger] self.paragraphs@[p as int].words@[w as int].glyphs_views@[gi]).primitive.metric_wf(),
                        forall|gi: int|
                            0 <= gi < gn ==> ({
                                let og = old(
                                    self,
                                ).paragraphs@[p as int].words@[w as int].glyphs_views@[gi];
                                let ng = (
                                #[trigger] self.paragraphs@[p as int].words@[w as int].glyphs_views@[gi]);
                                ng.start == og.start && ng.end == og.end && ng.properties
                                    == og.properties
                            }),
                        forall|gi: int|
                            g <= gi < gn ==> (
                            #[trigger] self.paragraphs@[p as int].words@[w as int].glyphs_views@[gi]).primitive
                                == old(
                                self,
                            ).paragraphs@[p as int].words@[w as int].glyphs_views@[gi].primitive,
                        forall|gi: int|
                            0 <= gi < g ==> crate::primitives::rescaled(
                                old(
                                    self,
                                ).paragraphs@[p as int].words@[w as int].glyphs_views@[gi].primitive.prop,
                                (
                                #[trigger] self.paragraphs@[p as int].words@[w as int].glyphs_views@[gi]).primitive.prop,
                                num as int,
                                den as int,
                            ),
                    decreases gn - g,
                {
                    proof {
                        assert(self.paragraphs@[p as int].words@[w as int].glyphs_views@[
                            g as int
                        ].primitive.metric_wf());
                    }
                    self.paragraphs[p].words[w].glyphs_views[g].primitive.rescale(num, den);
                    proof {
                        assert(self.paragraphs@[p as int].words@[w as int].segs() =~= old(
                            self,
                        ).paragraphs@[p as int].words@[w as int].segs());
                        assert forall|q: int|
                            0 <= q < pn implies (#[trigger] self.paragraphs@[q]).words_wf() by {
                            if q == p {
                                assert forall|wi: int|
                                    0 <= wi < self.paragraphs@[q].words@.len() implies (
                                #[trigger] self.paragraphs@[q].words@[wi]).wf()
                                    && self.paragraphs@[q].words@[wi].merged()
                                    && self.paragraphs@[q].words@[wi].metrics_wf() by {
                                    let ow = old(self).paragraphs@[q].words@[wi];
                                    let nw = self.paragraphs@[q].words@[wi];
                                    if wi == w as int {
                                        assert(nw.segs() == ow.segs());
                                        assert(nw.text() =~= ow.text());
                                        assert(ow.wf() && ow.merged());
                                    } else if wi < w as int {
                                        assert(word_rescaled(ow, nw, num as int, den as int));
                                        assert(nw.text() =~= ow.text());
                                        assert(ow.wf() && ow.merged());
                                    } else {
                                        assert(nw == ow);
                                    }
                                };
                            }
                        }
                    }
                    g += 1;
                }
                proof {
                    assert(word_rescaled(
                        old(self).paragraphs@[p as int].words@[w as int],
                        self.paragraphs@[p as int].words@[w as int],
                        num as int,
                        den as int,
                    ));
                }
                w += 1;
            }
            let ghost linesb = self.paragraphs@[p as int].lines@;
            let lnn = self.paragraphs[p].lines.len();
            let mut l: usize = 0;
            while l < lnn
                invariant
                    l <= lnn,
                    p < pn,
                    pn == self.paragraphs@.len(),
                    pn == old(self).paragraphs@.len(),
                    lnn == self.paragraphs@[p as int].lines@.len(),
                    linesb == old(self).paragraphs@[p as int].lines@,
                    1 <= num <= MAX_DIM,
                    1 <= den <= MAX_DIM,
                    self.cursor == old(self).cursor,
                    self.scroll == old(self).scroll,
                    self.scale == old(self).scale,
                    self.pages == old(self).pages,
                    self.sect_properties == old(self).sect_properties,
                    self.bg_color == old(self).bg_color,
                    self.selection_color == old(self).selection_color,
                    self.cursor_prims == old(self).cursor_prims,
                    10 <= self.scale <= 200,
                    in_range(self.scroll as int),
                    self.sect_properties.wf(),
                    forall|q: int| 0 <= q < pn ==> (#[trigger] self.paragraphs@[q]).words_wf(),
                    forall|q: int|
                        p < q < pn ==> (#[trigger] self.paragraphs@[q]) == old(
                            self,
                        ).paragraphs@[q],
                    forall|q: int|
                        0 <= q < p ==> par_rescaled(
                            old(self).paragraphs@[q],
                            #[trigger] self.paragraphs@[q],
                            num as int,
                            den as int,
                        ),
                    self.paragraphs@[p as int].properties == old(
                        self,
                    ).paragraphs@[p as int].properties,
                    self.paragraphs@[p as int].words@.len() == old(
                        self,
                    ).paragraphs@[p as int].words@.len(),
                    forall|wi: int|
                        0 <= wi < self.paragraphs@[p as int].words@.len() ==> word_rescaled(
                            old(self).paragraphs@[p as int].words@[wi],
                            #[trigger] self.paragraphs@[p as int].words@[wi],
                            num as int,
                            den as int,
                        ),
                    forall|li: int|
                        l <= li < lnn ==> (#[trigger] self.paragraphs@[p as int].lines@[li])
                            == linesb[li],
                    forall|li: int|
                        0 <= li < l ==> (#[trigger] self.paragraphs@[p as int].lines@[li])
                            == spec_line_descaled(linesb[li], num as int, den as int),
                decreases lnn - l,
            {
                let line = self.paragraphs[p].lines[l];
                let ch = crate::num::imin(crate::num::imax(line.height, -MAX_COORD), MAX_COORD);
                let cm = crate::num::imin(
                    crate::num::imax(line.min_width, -MAX_COORD),
                    MAX_COORD,
                );
                let cws = crate::num::imin(
                    crate::num::imax(line.width_with_spacing, -MAX_COORD),
                    MAX_COORD,
                );
                let cls = crate::num::imin(
                    crate::num::imax(line.last_scale, -MAX_COORD),
                    MAX_COORD,
                );
                let nl = Line {
                    height: cmuldiv(ch, den, num),
                    min_width: cmuldiv(cm, den, num),
                    width_with_spacing: cmuldiv(cws, den, num),
                    last_scale: cmuldiv(cls, den, num),
                    range_start: line.range_start,
                    range_end: line.range_end,
                };
                self.paragraphs[p].lines[l] = nl;
                l += 1;
            }
            proof {
                assert(par_rescaled(
                    old(self).paragraphs@[p as int],
                    self.paragraphs@[p as int],
                    num as int,
                    den as int,
                ));
            }
            p += 1;
        }
    }

    /// Apply one command: scroll and zoom adjust the document state
    /// (zoom clamps to 10–200 percent and re-scales the existing
    /// primitives by the effective ratio), cursor commands move the
    /// cursor, and the edit commands edit at the cursor and return the
    /// `(paragraph, word)` pairs whose glyphs the caller must rebuild;
    /// the caller then relays out and steps the cursor itself.
    pub fn process_document_command(&mut self, command: DocumentCommand) -> (r: Vec<
        (usize, usize),
    >)
        requires
            old(self).words_wf(),
            old(self).lines_ok(),
        ensures
            final(self).words_wf(),
            match command {
                DocumentCommand::NewScroll(v) => final(self).scroll as int == ({
                    if v < -MAX_COORD {
                        -MAX_COORD as int
                    } else if v > MAX_COORD {
                        MAX_COORD as int
                    } else {
                        v as int
                    }
                }) && final(self).scale == old(self).scale && final(self).paragraphs
                    == old(self).paragraphs,
                DocumentCommand::DeltaScroll(d) => final(self).scale == old(self).scale
                    && final(self).paragraphs == old(self).paragraphs,
                DocumentCommand::NewScale(v) => ({
                    let ns: int = if v < 10 {
                        10
                    } else if v > 200 {
                        200
                    } else {
                        v as int
                    };
                    &&& final(self).scale as int == ns
                    &&& final(self).scroll == old(self).scroll
                    &&& final(self).paragraphs@.len() == old(self).paragraphs@.len()
                    &&& forall|p: int|
                        0 <= p < old(self).paragraphs@.len() ==> par_rescaled(
                            old(self).paragraphs@[p],
                            #[trigger] final(self).paragraphs@[p],
                            ns,
                            old(self).scale as int,
                        )
                }),
                DocumentCommand::RatioScale(ratio) => ({
                    let rc: int = if ratio < 1 {
                        1
                    } else if ratio > MAX_DIM {
                        MAX_DIM as int
                    } else {
                        ratio as int
                    };
                    let q = crate::num::tdiv(clip(old(self).scale * rc), 100);
                    let ns: int = if q < 10 {
                        10
                    } else if q > 200 {
                        200
                    } else {
                        q
                    };
                    &&& final(self).scale as int == ns
                    &&& final(self).scroll == old(self).scroll
                    &&& final(self).paragraphs@.len() == old(self).paragraphs@.len()
                    &&& forall|p: int|
                        0 <= p < old(self).paragraphs@.len() ==> par_rescaled(
                            old(self).paragraphs@[p],
                            #[trigger] final(self).paragraphs@[p],
                            ns,
                            old(self).scale as int,
                        )
                }),
                DocumentCommand::ChangeCharIdx(_) => final(self).paragraphs
                    == old(self).paragraphs && same_but_cursor(*final(self), *old(self)),
                DocumentCommand::ChangeLineIdx(_) => final(self).paragraphs
                    == old(self).paragraphs && same_but_cursor(*final(self), *old(self)),
                DocumentCommand::Remove => remove_post(*old(self), *final(self), r@),
                DocumentCommand::Add(data) => insert_post(*old(self), *final(self), data@, r@),
                DocumentCommand::AddSpace => space_post(*old(self), *final(self), r@),
            },
            match command {
                DocumentCommand::Remove | DocumentCommand::Add(_)
                    | DocumentCommand::AddSpace => true,
                _ => r@.len() == 0,
            },
    {
        match command {
            DocumentCommand::NewScroll(new_scroll) => {
                self.scroll = crate::num::imin(
                    crate::num::imax(new_scroll, -MAX_COORD),
                    MAX_COORD,
                );
                Vec::new()
            },
            DocumentCommand::DeltaScroll(delta) => {
                let d = crate::num::imin(crate::num::imax(delta, -MAX_COORD), MAX_COORD);
                self.scroll = cadd(self.scroll, d);
                Vec::new()
            },
            DocumentCommand::NewScale(new_scale) => {
                let ns = crate::num::imin(crate::num::imax(new_scale, 10), 200);
                let old_scale = self.scale;
                self.scale_by_ratio(ns, old_scale);
                self.scale = ns;
                Vec::new()
            },
            DocumentCommand::RatioScale(ratio) => {
                let r = crate::num::imin(crate::num::imax(ratio, 1), MAX_DIM);
                let prev = self.scale;
                let ns = crate::num::imin(
                    crate::num::imax(crate::num::div_pos(cmul(prev, r), 100), 10),
                    200,
                );
                self.scale = ns;
                self.scale_by_ratio(ns, prev);
                Vec::new()
            },
            DocumentCommand::ChangeCharIdx(d) => {
                self.change_char(d);
                Vec::new()
            },
            DocumentCommand::ChangeLineIdx(d) => {
                self.change_line(d);
                Vec::new()
            },
            DocumentCommand::Remove => {
                self.remove()
            },
            DocumentCommand::Add(data) => {
                self.insert(data)
            },
            DocumentCommand::AddSpace => {
                self.insert_space()
            },
        }
    }

    /// Every primitive of the document, in draw order: pages first, then
    /// the cursor highlights, then every word's glyph primitives,
    /// paragraph by paragraph (later primitives draw on top).
    pub fn prims(&self) -> (r: Vec<&Primitive>)
        ensures
            r@.len() == prims_model(*self).len(),
            forall|i: int|
                0 <= i < r@.len() ==> *(#[trigger] r@[i]) == prims_model(*self)[i],
    {
        let mut out: Vec<&Primitive> = Vec::new();
        let ghost mut done = Seq::<Primitive>::empty();
        let pn = self.pages.len();
        let mut i: usize = 0;
        while i < pn
            invariant
                i <= pn,
                pn == self.pages@.len(),
                out@.len() == done.len(),
                done =~= self.pages@.map_values(|p: Page| p.primitive).take(i as int),
                forall|k: int| 0 <= k < out@.len() ==> *(#[trigger] out@[k]) == done[k],
            decreases pn - i,
        {
            out.push(&self.pages[i].primitive);
            proof {
                done = done.push(self.pages@[i as int].primitive);
                assert(done =~= self.pages@.map_values(|p: Page| p.primitive).take(i as int + 1));
            }
            i += 1;
        }
        proof {
            assert(self.pages@.map_values(|p: Page| p.primitive).take(pn as int)
                =~= self.pages@.map_values(|p: Page| p.primitive));
        }
        let cn = self.cursor_prims.len();
        let mut i: usize = 0;
        while i < cn
            invariant
                i <= cn,
                cn == self.cursor_prims@.len(),
                out@.len() == done.len(),
                done =~= self.pages@.map_values(|p: Page| p.primitive)
                    + self.cursor_prims@.take(i as int),
                forall|k: int| 0 <= k < out@.len() ==> *(#[trigger] out@[k]) == done[k],
            decreases cn - i,
        {
            out.push(&self.cursor_prims[i]);
            proof {
                done = done.push(self.cursor_prims@[i as int]);
                assert(done =~= self.pages@.map_values(|p: Page| p.primitive)
                    + self.cursor_prims@.take(i as int + 1));
            }
            i += 1;
        }
        proof {
            assert(self.cursor_prims@.take(cn as int) =~= self.cursor_prims@);
            assert(self.paragraphs@.take(0).map_values(|pp: Paragraph| par_prims(pp)) =~= Seq::<
                Seq<Primitive>,
            >::empty());
            assert(glyph_prims(self.paragraphs@.take(0)) =~= Seq::<Primitive>::empty());
            assert(done =~= self.pages@.map_values(|p: Page| p.primitive) + self.cursor_prims@
                + glyph_prims(self.paragraphs@.take(0)));
        }
        let parn = self.paragraphs.len();
        let mut p: usize = 0;
        while p < parn
            invariant
                p <= parn,
                parn == self.paragraphs@.len(),
                out@.len() == done.len(),
                done =~= self.pages@.map_values(|pg: Page| pg.primitive) + self.cursor_prims@
                    + glyph_prims(self.paragraphs@.take(p as int)),
                forall|k: int| 0 <= k < out@.len() ==> *(#[trigger] out@[k]) == done[k],
            decreases parn - p,
        {
            let ghost par_base = done;
            let wn = self.paragraphs[p].words.len();
            let mut w: usize = 0;
            proof {
                assert(self.paragraphs@[p as int].words@.take(0).map_values(
                    |wd: Word| word_prims(wd),
                ) =~= Seq::<Seq<Primitive>>::empty());
                assert(flatten_word_prims(self.paragraphs@[p as int].words@.take(0)) =~= Seq::<
                    Primitive,
                >::empty());
            }
            while w < wn
                invariant
                    w <= wn,
                    p < parn,
                    parn == self.paragraphs@.len(),
                    wn == self.paragraphs@[p as int].words@.len(),
                    out@.len() == done.len(),
                    done =~= par_base + flatten_word_prims(
                        self.paragraphs@[p as int].words@.take(w as int),
                    ),
                    par_base =~= self.pages@.map_values(|pg: Page| pg.primitive)
                        + self.cursor_prims@ + glyph_prims(self.paragraphs@.take(p as int)),
                    forall|k: int| 0 <= k < out@.len() ==> *(#[trigger] out@[k]) == done[k],
                decreases wn - w,
            {
                let gn = self.paragraphs[p].words[w].glyphs_views.len();
                let mut g: usize = 0;
                let ghost word_base = done;
                while g < gn
                    invariant
                        g <= gn,
                        p < parn,
                        w < wn,
                        parn == self.paragraphs@.len(),
                        wn == self.paragraphs@[p as int].words@.len(),
                        gn == self.paragraphs@[p as int].words@[w as int].glyphs_views@.len(),
                        out@.len() == done.len(),
                        done =~= word_base + word_prims(
                            self.paragraphs@[p as int].words@[w as int],
                        ).take(g as int),
                        forall|k: int| 0 <= k < out@.len() ==> *(#[trigger] out@[k]) == done[k],
                    decreases gn - g,
                {
                    out.push(&self.paragraphs[p].words[w].glyphs_views[g].primitive);
                    proof {
                        done = done.push(
                            self.paragraphs@[p as int].words@[w as int].glyphs_views@[
                                g as int
                            ].primitive,
                        );
                        assert(done =~= word_base + word_prims(
                            self.paragraphs@[p as int].words@[w as int],
                        ).take(g as int + 1));
                    }
                    g += 1;
                }
                proof {
                    let wd = self.paragraphs@[p as int].words@[w as int];
                    assert(word_prims(wd).take(gn as int) =~= word_prims(wd));
                    let ws = self.paragraphs@[p as int].words@;
                    assert(ws.take(w as int + 1).map_values(|x: Word| word_prims(x))
                        =~= ws.take(w as int).map_values(|x: Word| word_prims(x)).push(
                        word_prims(wd),
                    ));
                    ws.take(w as int).map_values(|x: Word| word_prims(x)).lemma_flatten_push(
                        word_prims(wd),
                    );
                    assert(done =~= par_base + flatten_word_prims(ws.take(w as int + 1)));
                }
                w += 1;
            }
            proof {
                let ws = self.paragraphs@[p as int].words@;
                assert(ws.take(wn as int) =~= ws);
                let ps = self.paragraphs@;
                assert(ps.take(p as int + 1).map_values(|pp: Paragraph| par_prims(pp))
                    =~= ps.take(p as int).map_values(|pp: Paragraph| par_prims(pp)).push(
                    par_prims(ps[p as int]),
                ));
                ps.take(p as int).map_values(|pp: Paragraph| par_prims(pp)).lemma_flatten_push(
                    par_prims(ps[p as int]),
                );
                assert(done =~= self.pages@.map_values(|pg: Page| pg.primitive)
                    + self.cursor_prims@ + glyph_prims(ps.take(p as int + 1)));
            }
            p += 1;
        }
        proof {
            assert(self.paragraphs@.take(parn as int) =~= self.paragraphs@);
            assert(done =~= prims_model(*self));
        }
        out
    }
}

} // verus!