//! Integer plane geometry: points, sizes, paddings and axis-aligned
//! rectangles, measured in layout units (see `num`).

use vstd::prelude::*;

use crate::num::{cadd, clip, csub, in_range};

verus! {

#[derive(Clone, Copy, Debug, PartialEq, Eq, Structural)]
pub struct Point {
    pub x: i64,
    pub y: i64,
}

#[derive(Clone, Copy, Debug, PartialEq, Eq, Structural)]
pub struct Size {
    pub width: i64,
    pub height: i64,
}

#[derive(Clone, Copy, Debug, PartialEq, Eq, Structural)]
pub struct Paddings {
    pub top: i64,
    pub right: i64,
    pub bottom: i64,
    pub left: i64,
}

/// A rectangle given by its top-left and bottom-right corners
/// (y grows downward, as on screen).
#[derive(Clone, Copy, Debug, PartialEq, Eq, Structural)]
pub struct Rectangle {
    pub left_top: Point,
    pub right_bottom: Point,
}

impl Point {
    pub open spec fn wf(self) -> bool {
        in_range(self.x as int) && in_range(self.y as int)
    }

    pub fn new(x: i64, y: i64) -> (r: Point)
        ensures
            r == (Point { x, y }),
    {
        Point { x, y }
    }
}

impl Size {
    pub open spec fn wf(self) -> bool {
        in_range(self.width as int) && in_range(self.height as int)
    }

    pub fn new(width: i64, height: i64) -> (r: Size)
        ensures
            r == (Size { width, height }),
    {
        Size { width, height }
    }
}

impl Paddings {
    pub open spec fn wf(self) -> bool {
        in_range(self.top as int) && in_range(self.right as int) && in_range(self.bottom as int)
            && in_range(self.left as int)
    }

    /// Uniform paddings on all four sides.
    pub fn uniform(v: i64) -> (r: Paddings)
        ensures
            r == (Paddings { top: v, right: v, bottom: v, left: v }),
    {
        Paddings { top: v, right: v, bottom: v, left: v }
    }
}

impl Rectangle {
    pub open spec fn wf(self) -> bool {
        self.left_top.wf() && self.right_bottom.wf()
    }

    /// What `new` computes: the bottom-right corner lies `size` away
    /// from the top-left corner (clamped into the coordinate range).
    pub open spec fn spec_new(left_top: Point, size: Size) -> Rectangle {
        Rectangle {
            left_top,
            right_bottom: Point {
                x: clip(left_top.x + size.width) as i64,
                y: clip(left_top.y + size.height) as i64,
            },
        }
    }

    pub fn new(left_top: Point, size: Size) -> (r: Rectangle)
        requires
            left_top.wf(),
            size.wf(),
        ensures
            r == Self::spec_new(left_top, size),
            r.wf(),
    {
        Rectangle {
            left_top,
            right_bottom: Point { x: cadd(left_top.x, size.width), y: cadd(left_top.y, size.height) },
        }
    }

    /// Shrink the rectangle by paddings on each side.
    pub fn add_paddings(self, paddings: Paddings) -> (r: Rectangle)
        requires
            self.wf(),
            paddings.wf(),
        ensures
            r.left_top.x as int == clip(self.left_top.x + paddings.left),
            r.left_top.y as int == clip(self.left_top.y + paddings.top),
            r.right_bottom.x as int == clip(self.right_bottom.x - paddings.right),
            r.right_bottom.y as int == clip(self.right_bottom.y - paddings.bottom),
            r.wf(),
    {
        Rectangle {
            left_top: Point {
                x: cadd(self.left_top.x, paddings.left),
                y: cadd(self.left_top.y, paddings.top),
            },
            right_bottom: Point {
                x: csub(self.right_bottom.x, paddings.right),
                y: csub(self.right_bottom.y, paddings.bottom),
            },
        }
    }

    /// The rectangle's extent, as width and height.
    pub open spec fn spec_size(self) -> Size {
        Size {
            width: clip(self.right_bottom.x - self.left_top.x) as i64,
            height: clip(self.right_bottom.y - self.left_top.y) as i64,
        }
    }

    pub fn size(self) -> (r: Size)
        requires
            self.wf(),
        ensures
            r == self.spec_size(),
            r.wf(),
    {
        Size {
            width: csub(self.right_bottom.x, self.left_top.x),
            height: csub(self.right_bottom.y, self.left_top.y),
        }
    }

    pub fn get_point_and_size(self) -> (r: (Point, Size))
        requires
            self.wf(),
        ensures
            r.0 == self.left_top,
            r.1 == self.spec_size(),
    {
        (self.left_top, self.size())
    }

    pub fn with_size(self, size: Size) -> (r: Rectangle)
        requires
            self.wf(),
            size.wf(),
        ensures
            r == Self::spec_new(self.left_top, size),
            r.wf(),
    {
        Rectangle::new(self.left_top, size)
    }

    pub fn with_height(self, height: i64) -> (r: Rectangle)
        requires
            self.wf(),
            in_range(height as int),
        ensures
            r == Self::spec_new(self.left_top, Size { width: self.spec_size().width, height }),
            r.wf(),
    {
        let size = self.size();
        Rectangle::new(self.left_top, Size { width: size.width, height })
    }

    pub fn with_width(self, width: i64) -> (r: Rectangle)
        requires
            self.wf(),
            in_range(width as int),
        ensures
            r == Self::spec_new(self.left_top, Size { width, height: self.spec_size().height }),
            r.wf(),
    {
        let size = self.size();
        Rectangle::new(self.left_top, Size { width, height: size.height })
    }

    /// Translate the rectangle by `(dx, dy)`, keeping its size.
    pub fn add_point(self, dx: i64, dy: i64) -> (r: Rectangle)
        requires
            self.wf(),
            in_range(dx as int),
            in_range(dy as int),
        ensures
            r == Self::spec_new(
                Point { x: clip(self.left_top.x + dx) as i64, y: clip(self.left_top.y + dy) as i64 },
                self.spec_size(),
            ),
            r.wf(),
    {
        let size = self.size();
        Rectangle::new(Point { x: cadd(self.left_top.x, dx), y: cadd(self.left_top.y, dy) }, size)
    }

    pub fn add_x(self, dx: i64) -> (r: Rectangle)
        requires
            self.wf(),
            in_range(dx as int),
        ensures
            r == Self::spec_new(
                Point { x: clip(self.left_top.x + dx) as i64, y: self.left_top.y },
                self.spec_size(),
            ),
            r.wf(),
    {
        self.add_point(dx, 0)
    }

    pub fn add_y(self, dy: i64) -> (r: Rectangle)
        requires
            self.wf(),
            in_range(dy as int),
        ensures
            r == Self::spec_new(
                Point { x: self.left_top.x, y: clip(self.left_top.y + dy) as i64 },
                self.spec_size(),
            ),
            r.wf(),
    {
        self.add_point(0, dy)
    }

    pub fn x(self) -> (r: i64)
        ensures
            r == self.left_top.x,
    {
        self.left_top.x
    }

    pub fn y(self) -> (r: i64)
        ensures
            r == self.left_top.y,
    {
        self.left_top.y
    }

    pub fn width(self) -> (r: i64)
        requires
            self.wf(),
        ensures
            r == self.spec_size().width,
    {
        self.size().width
    }

    pub fn height(self) -> (r: i64)
        requires
            self.wf(),
        ensures
            r == self.spec_size().height,
    {
        self.size().height
    }

    /// Move only the top-left corner by `(dx, dy)` (shrinks the rectangle).
    pub fn move_left_top(self, dx: i64, dy: i64) -> (r: Rectangle)
        requires
            self.wf(),
            in_range(dx as int),
            in_range(dy as int),
        ensures
            r.left_top.x as int == clip(self.left_top.x + dx),
            r.left_top.y as int == clip(self.left_top.y + dy),
            r.right_bottom == self.right_bottom,
            r.wf(),
    {
        Rectangle {
            left_top: Point { x: cadd(self.left_top.x, dx), y: cadd(self.left_top.y, dy) },
            right_bottom: self.right_bottom,
        }
    }

    /// Move only the bottom-right corner by `(dx, dy)`.
    pub fn move_right_bottom(self, dx: i64, dy: i64) -> (r: Rectangle)
        requires
            self.wf(),
            in_range(dx as int),
            in_range(dy as int),
        ensures
            r.left_top == self.left_top,
            r.right_bottom.x as int == clip(self.right_bottom.x + dx),
            r.right_bottom.y as int == clip(self.right_bottom.y + dy),
            r.wf(),
    {
        Rectangle {
            left_top: self.left_top,
            right_bottom: Point {
                x: cadd(self.right_bottom.x, dx),
                y: cadd(self.right_bottom.y, dy),
            },
        }
    }
}

impl Default for Rectangle {
    fn default() -> (r: Rectangle)
        ensures
            r == (Rectangle {
                left_top: Point { x: 0, y: 0 },
                right_bottom: Point { x: 0, y: 0 },
            }),
    {
        Rectangle { left_top: Point { x: 0, y: 0 }, right_bottom: Point { x: 0, y: 0 } }
    }
}

} // verus!
