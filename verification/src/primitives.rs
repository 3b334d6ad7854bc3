//! Drawing primitives produced by layout: background rectangles and
//! positioned text blocks.  Rasterisation happens outside this crate; here a
//! primitive is pure geometry plus content.

use vstd::prelude::*;

use crate::geometry::{Point, Rectangle, Size};
use crate::num::{cadd, clip, cmuldiv, in_range, tdiv, MAX_COORD};
use crate::props::Color;

verus! {

/// Largest width, height or scale a text primitive may carry; sums of
/// per-segment metrics then stay inside the coordinate range.
pub const MAX_DIM: i64 = 0xffff_ffff;

/// A positioned block of text: its top-left corner, content, color,
/// measured size, and the pixel scale it was measured at.
#[derive(Debug)]
pub struct PlainTextProperties {
    pub left_top: Point,
    pub content: String,
    pub color: Color,
    pub size: Size,
    pub scale: i64,
}

/// Geometry and content of one primitive.
#[derive(Debug)]
pub enum PrimitiveProperties {
    Rect { rect: Rectangle, color: Color },
    PlainText(PlainTextProperties),
    Empty,
}

/// One drawable primitive.
#[derive(Debug)]
pub struct Primitive {
    pub prop: PrimitiveProperties,
}

/// Width contributed by a primitive (text blocks report their measured size).
pub open spec fn prim_width(p: PrimitiveProperties) -> int {
    match p {
        PrimitiveProperties::Rect { rect, .. } => clip(
            rect.right_bottom.x - rect.left_top.x as int,
        ),
        PrimitiveProperties::PlainText(pt) => pt.size.width as int,
        PrimitiveProperties::Empty => 0,
    }
}

/// Height contributed by a primitive.
pub open spec fn prim_height(p: PrimitiveProperties) -> int {
    match p {
        PrimitiveProperties::Rect { rect, .. } => clip(
            rect.right_bottom.y - rect.left_top.y as int,
        ),
        PrimitiveProperties::PlainText(pt) => pt.size.height as int,
        PrimitiveProperties::Empty => 0,
    }
}

/// Scale reported by a primitive (a rectangle reports its height, the
/// convention the renderer expects).
pub open spec fn prim_scale(p: PrimitiveProperties) -> int {
    match p {
        PrimitiveProperties::Rect { rect, .. } => clip(
            rect.right_bottom.y - rect.left_top.y as int,
        ),
        PrimitiveProperties::PlainText(pt) => pt.scale as int,
        PrimitiveProperties::Empty => 0,
    }
}

impl PrimitiveProperties {
    /// Bounds for primitives that take part in metric sums.
    pub open spec fn metric_wf(self) -> bool {
        match self {
            PrimitiveProperties::Rect { rect, .. } => rect.wf()
                && rect.left_top.x <= rect.right_bottom.x
                && rect.left_top.y <= rect.right_bottom.y,
            PrimitiveProperties::PlainText(pt) => {
                &&& pt.left_top.wf()
                &&& 0 <= pt.size.width as int <= MAX_DIM as int
                &&& 0 <= pt.size.height as int <= MAX_DIM as int
                &&& 0 <= pt.scale as int <= MAX_DIM as int
            },
            PrimitiveProperties::Empty => true,
        }
    }
}

/// A metric multiplied by `num / den` (truncating), clamped into the
/// metric bound.
pub open spec fn scaled_metric(v: int, num: int, den: int) -> int {
    let r = clip(tdiv(v * num, den));
    if r > MAX_DIM as int {
        MAX_DIM as int
    } else {
        r
    }
}

/// The new primitive is the old one with its geometry multiplied by
/// `num / den`: a rectangle keeps its corner and color, a text block
/// keeps its position, content and color while its measured size and
/// scale are multiplied, and an absent primitive stays absent.
pub open spec fn rescaled(
    oldp: PrimitiveProperties,
    newp: PrimitiveProperties,
    num: int,
    den: int,
) -> bool {
    match oldp {
        PrimitiveProperties::Rect { rect, color } => newp matches PrimitiveProperties::Rect {
            rect: nr,
            color: nc,
        } && nc == color && nr == Rectangle::spec_new(
            rect.left_top,
            Size {
                width: clip(tdiv(clip(rect.right_bottom.x - rect.left_top.x) * num, den)) as i64,
                height: clip(tdiv(clip(rect.right_bottom.y - rect.left_top.y) * num, den)) as i64,
            },
        ),
        PrimitiveProperties::PlainText(pt) => newp matches PrimitiveProperties::PlainText(npt)
            && npt.left_top == pt.left_top && npt.content@ == pt.content@ && npt.color == pt.color
            && npt.size.width as int == scaled_metric(pt.size.width as int, num, den)
            && npt.size.height as int == scaled_metric(pt.size.height as int, num, den)
            && npt.scale as int == scaled_metric(pt.scale as int, num, den),
        PrimitiveProperties::Empty => newp is Empty,
    }
}

/// The bounding rectangle of a primitive's properties.
pub open spec fn prim_rect(p: PrimitiveProperties) -> Rectangle {
    match p {
        PrimitiveProperties::Rect { rect, .. } => rect,
        PrimitiveProperties::PlainText(pt) => Rectangle::spec_new(pt.left_top, pt.size),
        PrimitiveProperties::Empty => Rectangle {
            left_top: Point { x: 0, y: 0 },
            right_bottom: Point { x: 0, y: 0 },
        },
    }
}

impl Primitive {
    pub open spec fn metric_wf(self) -> bool {
        self.prop.metric_wf()
    }

    /// An empty (absent) primitive.
    pub fn empty() -> (r: Primitive)
        ensures
            r.prop is Empty,
    {
        Primitive { prop: PrimitiveProperties::Empty }
    }

    pub fn is_empty(&self) -> (r: bool)
        ensures
            r == (self.prop is Empty),
    {
        match &self.prop {
            PrimitiveProperties::Empty => true,
            _ => false,
        }
    }

    /// The bounding rectangle of the primitive.
    pub fn get_rect(&self) -> (r: Rectangle)
        requires
            self.metric_wf(),
        ensures
            r == prim_rect(self.prop),
            r.wf(),
            match self.prop {
                PrimitiveProperties::Rect { rect, .. } => r == rect,
                PrimitiveProperties::PlainText(pt) => r == Rectangle::spec_new(
                    pt.left_top,
                    pt.size,
                ),
                PrimitiveProperties::Empty => r == (Rectangle {
                    left_top: Point { x: 0, y: 0 },
                    right_bottom: Point { x: 0, y: 0 },
                }),
            },
    {
        match &self.prop {
            PrimitiveProperties::Rect { rect, .. } => *rect,
            PrimitiveProperties::PlainText(pt) => Rectangle::new(pt.left_top, pt.size),
            PrimitiveProperties::Empty => Rectangle {
                left_top: Point { x: 0, y: 0 },
                right_bottom: Point { x: 0, y: 0 },
            },
        }
    }

    /// Move a text primitive to a new top-left corner; other primitives
    /// are left alone.
    pub fn set_text_position(&mut self, p: Point)
        ensures
            match old(self).prop {
                PrimitiveProperties::PlainText(pt) => final(self).prop matches PrimitiveProperties::PlainText(npt)
                    && npt.left_top == p && npt.content@ == pt.content@ && npt.color == pt.color
                    && npt.size == pt.size && npt.scale == pt.scale,
                _ => final(self).prop == old(self).prop,
            },
            old(self).metric_wf() && p.wf() ==> final(self).metric_wf(),
    {
        match &mut self.prop {
            PrimitiveProperties::PlainText(pt) => {
                pt.left_top = p;
            },
            _ => {},
        }
    }

    /// Re-scale the primitive's geometry in place by `num / den`
    /// (truncating), keeping its position; text metrics clamp into the
    /// metric bound.
    pub fn rescale(&mut self, num: i64, den: i64)
        requires
            old(self).metric_wf(),
            1 <= num <= MAX_DIM,
            1 <= den <= MAX_DIM,
        ensures
            final(self).metric_wf(),
            rescaled(old(self).prop, final(self).prop, num as int, den as int),
    {
        match &mut self.prop {
            PrimitiveProperties::Rect { rect, .. } => {
                let w = crate::num::csub(rect.right_bottom.x, rect.left_top.x);
                let h = crate::num::csub(rect.right_bottom.y, rect.left_top.y);
                *rect = Rectangle::new(
                    rect.left_top,
                    Size { width: cmuldiv(w, num, den), height: cmuldiv(h, num, den) },
                );
            },
            PrimitiveProperties::PlainText(pt) => {
                let w = crate::num::imin(cmuldiv(pt.size.width, num, den), MAX_DIM);
                let h = crate::num::imin(cmuldiv(pt.size.height, num, den), MAX_DIM);
                let sc = crate::num::imin(cmuldiv(pt.scale, num, den), MAX_DIM);
                pt.size = Size { width: w, height: h };
                pt.scale = sc;
            },
            PrimitiveProperties::Empty => {},
        }
    }

    /// The scale of the primitive (rectangles report their height).
    pub fn get_scale(&self) -> (r: i64)
        requires
            self.metric_wf(),
        ensures
            r as int == prim_scale(self.prop),
    {
        match &self.prop {
            PrimitiveProperties::Rect { rect, .. } => crate::num::csub(
                rect.right_bottom.y,
                rect.left_top.y,
            ),
            PrimitiveProperties::PlainText(pt) => pt.scale,
            PrimitiveProperties::Empty => 0,
        }
    }
}

impl PrimitiveProperties {
    /// Translate the primitive vertically by `delta`.
    pub fn scroll(self, delta: i64) -> (r: PrimitiveProperties)
        requires
            self.metric_wf(),
            in_range(delta as int),
        ensures
            match self {
                PrimitiveProperties::Rect { rect, color } => r matches PrimitiveProperties::Rect {
                    rect: nr,
                    color: nc,
                } && nc == color && nr.left_top.x == rect.left_top.x && nr.left_top.y as int == clip(
                    rect.left_top.y + delta,
                ) && nr.right_bottom.x == rect.right_bottom.x && nr.right_bottom.y as int == clip(
                    rect.right_bottom.y + delta,
                ),
                PrimitiveProperties::PlainText(pt) => r matches PrimitiveProperties::PlainText(npt)
                    && npt.left_top.x == pt.left_top.x && npt.left_top.y as int == clip(
                    pt.left_top.y + delta,
                ) && npt.content@ == pt.content@ && npt.color == pt.color && npt.size == pt.size
                    && npt.scale == pt.scale,
                PrimitiveProperties::Empty => r is Empty,
            },
            r.metric_wf(),
    {
        match self {
            PrimitiveProperties::Rect { rect, color } => PrimitiveProperties::Rect {
                rect: Rectangle {
                    left_top: Point { x: rect.left_top.x, y: cadd(rect.left_top.y, delta) },
                    right_bottom: Point {
                        x: rect.right_bottom.x,
                        y: cadd(rect.right_bottom.y, delta),
                    },
                },
                color,
            },
            PrimitiveProperties::PlainText(pt) => PrimitiveProperties::PlainText(
                PlainTextProperties {
                    left_top: Point { x: pt.left_top.x, y: cadd(pt.left_top.y, delta) },
                    content: pt.content,
                    color: pt.color,
                    size: pt.size,
                    scale: pt.scale,
                },
            ),
            PrimitiveProperties::Empty => PrimitiveProperties::Empty,
        }
    }

    /// Multiply the primitive's geometry by the ratio `num / den`
    /// (truncating), keeping its position.
    pub fn scale(self, num: i64, den: i64) -> (r: PrimitiveProperties)
        requires
            self.metric_wf(),
            0 < num <= MAX_DIM as int,
            0 < den <= MAX_DIM as int,
        ensures
            match self {
                PrimitiveProperties::Rect { rect, color } => r matches PrimitiveProperties::Rect {
                    rect: nr,
                    color: nc,
                } && nc == color && nr == Rectangle::spec_new(
                    rect.left_top,
                    Size {
                        width: clip(tdiv(clip(rect.right_bottom.x - rect.left_top.x) * num, den as int)) as i64,
                        height: clip(tdiv(clip(rect.right_bottom.y - rect.left_top.y) * num, den as int)) as i64,
                    },
                ),
                PrimitiveProperties::PlainText(pt) => r matches PrimitiveProperties::PlainText(npt)
                    && npt.left_top == pt.left_top && npt.content@ == pt.content@ && npt.color
                    == pt.color && npt.size.width as int == clip(
                    tdiv(pt.size.width * num, den as int),
                ) && npt.size.height as int == clip(tdiv(pt.size.height * num, den as int))
                    && npt.scale as int == clip(tdiv(pt.scale * num, den as int)),
                PrimitiveProperties::Empty => r is Empty,
            },
    {
        match self {
            PrimitiveProperties::Rect { rect, color } => {
                let w = crate::num::csub(rect.right_bottom.x, rect.left_top.x);
                let h = crate::num::csub(rect.right_bottom.y, rect.left_top.y);
                PrimitiveProperties::Rect {
                    rect: Rectangle::new(
                        rect.left_top,
                        Size { width: cmuldiv(w, num, den), height: cmuldiv(h, num, den) },
                    ),
                    color,
                }
            },
            PrimitiveProperties::PlainText(pt) => PrimitiveProperties::PlainText(
                PlainTextProperties {
                    left_top: pt.left_top,
                    content: pt.content,
                    color: pt.color,
                    size: Size {
                        width: cmuldiv(pt.size.width, num, den),
                        height: cmuldiv(pt.size.height, num, den),
                    },
                    scale: cmuldiv(pt.scale, num, den),
                },
            ),
            PrimitiveProperties::Empty => PrimitiveProperties::Empty,
        }
    }
}

} // verus!
