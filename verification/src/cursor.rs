//! Cursor positions and their relation to paragraphs, lines and selections.
//!
//! A position addresses `(paragraph, line, grapheme)` where the grapheme
//! index counts across the words of its line, one extra unit for each
//! inter-word gap and one for the line end.

use vstd::prelude::*;

verus! {

/// A structural cursor position.
#[derive(Clone, Copy, Debug, Default, PartialEq, Eq, Structural)]
pub struct CursorPos {
    pub par_idx: usize,
    pub line_idx: usize,
    pub char_idx: usize,
}

/// The cursor in its four modes; a selection carries its two endpoints.
#[derive(Clone, Copy, Debug, PartialEq, Eq, Structural)]
pub enum Cursor {
    View(CursorPos),
    Normal(CursorPos),
    Edit(CursorPos),
    Select { start: CursorPos, end: CursorPos },
}

/// Where a line stands relative to the cursor.
#[derive(Clone, Copy, Debug, PartialEq, Eq, Structural)]
pub enum LineRelativePosition {
    Outside,
    Inside,
    Exact(usize),
    ExactStart(usize),
    ExactEnd(usize),
}

/// Where a position stands relative to the cursor.
#[derive(Clone, Copy, Debug, PartialEq, Eq, Structural)]
pub enum CursorRelativePosition {
    Outside,
    Inside,
    Start,
    End,
    ExactStart,
    ExactEnd,
    Exact,
}

impl Cursor {
    /// The position a point cursor or a selection's end currently occupies.
    pub open spec fn spec_pos(self) -> CursorPos {
        match self {
            Cursor::View(c) => c,
            Cursor::Normal(c) => c,
            Cursor::Edit(c) => c,
            Cursor::Select { end, .. } => end,
        }
    }

    /// How the line `(par_idx, line_idx)` relates to the cursor: a point
    /// cursor meets exactly its own line; a selection meets its start and
    /// end lines exactly and the lines strictly between them inside.
    pub open spec fn spec_match_par_line(
        self,
        par_idx: usize,
        line_idx: usize,
    ) -> LineRelativePosition {
        match self {
            Cursor::View(c) | Cursor::Normal(c) | Cursor::Edit(c) => {
                if c.line_idx == line_idx && c.par_idx == par_idx {
                    LineRelativePosition::Exact(c.char_idx)
                } else {
                    LineRelativePosition::Outside
                }
            },
            Cursor::Select { start, end } => {
                if start.par_idx == par_idx && start.line_idx == line_idx {
                    LineRelativePosition::ExactStart(start.char_idx)
                } else if end.par_idx == par_idx && end.line_idx == line_idx {
                    LineRelativePosition::ExactEnd(end.char_idx)
                } else if (line_idx <= start.line_idx && start.par_idx == par_idx) || par_idx
                    < start.par_idx || (line_idx >= end.line_idx && end.par_idx == par_idx)
                    || par_idx > end.par_idx {
                    LineRelativePosition::Outside
                } else {
                    LineRelativePosition::Inside
                }
            },
        }
    }

    pub fn match_par_line(&self, par_idx: usize, line_idx: usize) -> (r: LineRelativePosition)
        ensures
            r == self.spec_match_par_line(par_idx, line_idx),
    {
        match self {
            Cursor::View(c) | Cursor::Normal(c) | Cursor::Edit(c) => {
                if c.line_idx == line_idx && c.par_idx == par_idx {
                    LineRelativePosition::Exact(c.char_idx)
                } else {
                    LineRelativePosition::Outside
                }
            },
            Cursor::Select { start, end } => {
                if start.par_idx == par_idx && start.line_idx == line_idx {
                    LineRelativePosition::ExactStart(start.char_idx)
                } else if end.par_idx == par_idx && end.line_idx == line_idx {
                    LineRelativePosition::ExactEnd(end.char_idx)
                } else if (line_idx <= start.line_idx && start.par_idx == par_idx) || par_idx
                    < start.par_idx || (line_idx >= end.line_idx && end.par_idx == par_idx)
                    || par_idx > end.par_idx {
                    LineRelativePosition::Outside
                } else {
                    LineRelativePosition::Inside
                }
            },
        }
    }

    /// How an exact position relates to the cursor: equality for a point
    /// cursor; for a selection, on an endpoint's line the grapheme index
    /// decides between the exact endpoint, the selected side and outside,
    /// and other lines count inside exactly between the endpoints.
    pub open spec fn spec_match_pos(self, pos: CursorPos) -> CursorRelativePosition {
        match self {
            Cursor::View(c) | Cursor::Normal(c) | Cursor::Edit(c) => {
                if c.par_idx == pos.par_idx && c.line_idx == pos.line_idx && c.char_idx
                    == pos.char_idx {
                    CursorRelativePosition::Exact
                } else {
                    CursorRelativePosition::Outside
                }
            },
            Cursor::Select { start, end } => {
                if start.line_idx == pos.line_idx && start.par_idx == pos.par_idx {
                    if start.char_idx < pos.char_idx {
                        CursorRelativePosition::Start
                    } else if start.char_idx > pos.char_idx {
                        CursorRelativePosition::Outside
                    } else {
                        CursorRelativePosition::ExactStart
                    }
                } else if end.line_idx == pos.line_idx && end.par_idx == pos.par_idx {
                    if end.char_idx == pos.char_idx {
                        CursorRelativePosition::ExactEnd
                    } else if end.char_idx < pos.char_idx {
                        CursorRelativePosition::Outside
                    } else {
                        CursorRelativePosition::End
                    }
                } else if (pos.line_idx <= start.line_idx && start.par_idx == pos.par_idx)
                    || pos.par_idx < start.par_idx || (pos.line_idx >= end.line_idx && end.par_idx
                    == pos.par_idx) || pos.par_idx > end.par_idx {
                    CursorRelativePosition::Outside
                } else {
                    CursorRelativePosition::Inside
                }
            },
        }
    }

    pub fn match_pos(&self, pos: CursorPos) -> (r: CursorRelativePosition)
        ensures
            r == self.spec_match_pos(pos),
    {
        match self {
            Cursor::View(c) | Cursor::Normal(c) | Cursor::Edit(c) => {
                if c.par_idx == pos.par_idx && c.line_idx == pos.line_idx && c.char_idx
                    == pos.char_idx {
                    CursorRelativePosition::Exact
                } else {
                    CursorRelativePosition::Outside
                }
            },
            Cursor::Select { start, end } => {
                if start.line_idx == pos.line_idx && start.par_idx == pos.par_idx {
                    if start.char_idx < pos.char_idx {
                        CursorRelativePosition::Start
                    } else if start.char_idx > pos.char_idx {
                        CursorRelativePosition::Outside
                    } else {
                        CursorRelativePosition::ExactStart
                    }
                } else if end.line_idx == pos.line_idx && end.par_idx == pos.par_idx {
                    if end.char_idx == pos.char_idx {
                        CursorRelativePosition::ExactEnd
                    } else if end.char_idx < pos.char_idx {
                        CursorRelativePosition::Outside
                    } else {
                        CursorRelativePosition::End
                    }
                } else if (pos.line_idx <= start.line_idx && start.par_idx == pos.par_idx)
                    || pos.par_idx < start.par_idx || (pos.line_idx >= end.line_idx && end.par_idx
                    == pos.par_idx) || pos.par_idx > end.par_idx {
                    CursorRelativePosition::Outside
                } else {
                    CursorRelativePosition::Inside
                }
            },
        }
    }
}

impl CursorPos {
    /// A position on the first line of the first paragraph.
    pub fn from_char_idx(char_idx: usize) -> (r: CursorPos)
        ensures
            r == (CursorPos { par_idx: 0, line_idx: 0, char_idx }),
    {
        CursorPos { par_idx: 0, line_idx: 0, char_idx }
    }
}

} // verus!
