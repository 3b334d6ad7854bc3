//! Small presentation-model types: interface modes, block alignment, and
//! the command-input actions the console accepts.

use vstd::prelude::*;

verus! {

/// Interface mode of the editor.
#[derive(Clone, Copy, Debug, Default, PartialEq, Eq, Structural)]
pub enum Mode {
    #[default]
    View,
    Edit,
    Normal,
    CommandInput,
}

impl Mode {
    /// The mode's display name.
    pub fn name(self) -> (r: &'static str)
        ensures
            match self {
                Mode::View => r@ == "view"@,
                Mode::Edit => r@ == "edit"@,
                Mode::Normal => r@ == "normal"@,
                Mode::CommandInput => r@ == "command"@,
            },
    {
        match self {
            Mode::View => "view",
            Mode::Edit => "edit",
            Mode::Normal => "normal",
            Mode::CommandInput => "command",
        }
    }
}

/// Interface mode of the earlier console-driven surface.
#[derive(Clone, Copy, Debug, Default, PartialEq, Eq, Structural)]
pub enum UiMode {
    #[default]
    View,
    Command,
    CommandInput,
    Edit,
}

/// One keystroke-level action on the command line.
#[derive(Clone, Debug)]
pub enum CommandInputAction {
    Enter,
    Backspace,
    Input(String),
}

/// Horizontal placement of a block in its parent.
#[derive(Clone, Copy, Debug, Default, PartialEq, Eq, Structural)]
pub enum AlignmentHorizontal {
    #[default]
    Left,
    Right,
    Center,
}

/// Vertical placement of a block in its parent.
#[derive(Clone, Copy, Debug, Default, PartialEq, Eq, Structural)]
pub enum AlignmentVertical {
    #[default]
    Top,
    Bottom,
    Horizon,
}

/// Placement of a block in its parent, on both axes.
#[derive(Clone, Copy, Debug, Default, PartialEq, Eq, Structural)]
pub struct Alignment {
    pub horizontal: AlignmentHorizontal,
    pub vertical: AlignmentVertical,
}

impl Alignment {
    pub fn new(vertical: AlignmentVertical, horizontal: AlignmentHorizontal) -> (r: Alignment)
        ensures
            r == (Alignment { horizontal, vertical }),
    {
        Alignment { horizontal, vertical }
    }

    /// A vertical placement, left-aligned.
    pub fn vertical(vertical: AlignmentVertical) -> (r: Alignment)
        ensures
            r == (Alignment { vertical, horizontal: AlignmentHorizontal::Left }),
    {
        Alignment { vertical, horizontal: AlignmentHorizontal::Left }
    }

    /// A horizontal placement, top-aligned.
    pub fn horizontal(horizontal: AlignmentHorizontal) -> (r: Alignment)
        ensures
            r == (Alignment { horizontal, vertical: AlignmentVertical::Top }),
    {
        Alignment { horizontal, vertical: AlignmentVertical::Top }
    }
}

} // verus!
