//! A verified core for a docx reader/editor: styled text runs are segmented
//! into words, words are broken into lines, lines are justified and paginated,
//! and a grapheme-precise cursor supports in-place insert/remove edits that
//! keep per-segment style ranges consistent.
//!
//! Geometry and font metrics are modelled in integer units; rasterisation,
//! font lookup and file I/O live outside this crate and hand plain values in.

pub mod cursor;
pub mod document;
pub mod docx;
pub mod edit;
pub mod geometry;
pub mod lines;
pub mod num;
pub mod pages;
pub mod primitives;
pub mod props;
pub mod save;
pub mod segmenter;
pub mod strutil;
pub mod ui;
pub mod unicode;
pub mod word;
pub mod xml;
