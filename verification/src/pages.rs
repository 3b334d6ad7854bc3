//! Pages and the paginator: a vertical cursor advances through the
//! current page's content area; an advance that does not fit allocates a
//! new page a fixed gap below the previous one.

use vstd::prelude::*;

use crate::geometry::{Paddings, Point, Rectangle, Size};
use crate::num::{cadd, clip, cmuldiv, csub, div_pos, in_range, tdiv, MAX_COORD};
use crate::primitives::{Primitive, PrimitiveProperties, MAX_DIM};
use crate::props::Color;

verus! {

/// Vertical gap between consecutive pages, before scaling.
pub const PAGE_SPACE_BETWEEN: i64 = 100;

/// Page extent and interior paddings, in layout units.
#[derive(Clone, Copy, Debug, PartialEq, Eq, Structural)]
pub struct PageProperties {
    pub size: Size,
    pub paddings: Paddings,
}

impl PageProperties {
    pub open spec fn wf(self) -> bool {
        &&& 0 <= self.size.width as int <= MAX_DIM as int
        &&& 0 <= self.size.height as int <= MAX_DIM as int
        &&& 0 <= self.paddings.top as int <= MAX_DIM as int
        &&& 0 <= self.paddings.right as int <= MAX_DIM as int
        &&& 0 <= self.paddings.bottom as int <= MAX_DIM as int
        &&& 0 <= self.paddings.left as int <= MAX_DIM as int
    }
}

impl Default for PageProperties {
    fn default() -> (r: PageProperties)
        ensures
            r == (PageProperties {
                size: Size { width: 100, height: 100 },
                paddings: Paddings { top: 10, right: 10, bottom: 10, left: 10 },
            }),
    {
        PageProperties {
            size: Size { width: 100, height: 100 },
            paddings: Paddings { top: 10, right: 10, bottom: 10, left: 10 },
        }
    }
}

/// One page: its properties and its background primitive.
#[derive(Debug)]
pub struct Page {
    pub page_properties: PageProperties,
    pub primitive: Primitive,
}

/// The vertical position of a page's top edge.
pub open spec fn page_top(p: Page) -> int {
    match p.primitive.prop {
        PrimitiveProperties::Rect { rect, .. } => rect.left_top.y as int,
        _ => 0,
    }
}

impl Page {
    pub open spec fn wf(self) -> bool {
        &&& self.page_properties.wf()
        &&& self.primitive.prop matches PrimitiveProperties::Rect { rect, .. } && rect.wf()
            && rect.left_top.y <= rect.right_bottom.y && rect.left_top.x <= rect.right_bottom.x
    }
}

/// The background rectangle of a page (a degenerate rectangle for a
/// page without one).
pub open spec fn page_rect_of(p: Page) -> Rectangle {
    match p.primitive.prop {
        PrimitiveProperties::Rect { rect, .. } => rect,
        _ => Rectangle {
            left_top: Point { x: 0, y: 0 },
            right_bottom: Point { x: 0, y: 0 },
        },
    }
}

/// Each page starts one scaled gap below the bottom of the page before
/// it (clamped into the coordinate range).
pub open spec fn pages_adjacent(pages: Seq<Page>, scale: int) -> bool {
    forall|i: int|
        #![trigger pages[i], pages[i + 1]]
        0 <= i < pages.len() - 1 ==> page_top(pages[i + 1]) == clip(
            page_rect_of(pages[i]).right_bottom.y + clip(
                tdiv(PAGE_SPACE_BETWEEN as int * scale, 100),
            ),
        )
}

/// Page tops strictly increase down the document; an offset clamped at
/// the far edge of the coordinate range is allowed to stall there.
pub open spec fn pages_monotone(pages: Seq<Page>) -> bool {
    forall|i: int|
        #![trigger pages[i], pages[i + 1]]
        0 <= i < pages.len() - 1 ==> page_top(pages[i]) < page_top(pages[i + 1]) || page_top(
            pages[i + 1],
        ) == MAX_COORD as int
}

/// The running layout state: the remaining content area of the current
/// page, the page's own rectangle and properties, the viewport width,
/// the background color and the zoom scale (percent).
#[derive(Debug)]
pub struct LayoutCtx {
    pub page_content_rect: Rectangle,
    pub page_properties: PageProperties,
    pub bg_color: Color,
    pub page_rect: Rectangle,
    pub v_width: i64,
    pub scale: i64,
}

impl LayoutCtx {
    pub open spec fn wf(self) -> bool {
        &&& self.page_content_rect.wf()
        &&& self.page_rect.wf()
        &&& self.page_rect.left_top.y <= self.page_rect.right_bottom.y
        &&& in_range(self.v_width as int)
        &&& 10 <= self.scale <= 200
        &&& self.page_properties.wf()
    }
}

/// The rectangle a page allocated at `offset` occupies: the page size is
/// scaled by `scale` percent and the page is centred in the viewport.
pub open spec fn spec_page_rect(
    props: PageProperties,
    v_width: int,
    offset: int,
    scale: int,
) -> Rectangle {
    let w = clip(tdiv(props.size.width as int * scale, 100));
    let h = clip(tdiv(props.size.height as int * scale, 100));
    Rectangle::spec_new(
        Point { x: clip(tdiv(clip(v_width - w), 2)) as i64, y: clip(offset) as i64 },
        Size { width: w as i64, height: h as i64 },
    )
}

/// Allocate a page whose scaled background rectangle starts at `offset`,
/// horizontally centred in the viewport.
pub fn new_page_with_offset(
    page_properties: &PageProperties,
    v_width: i64,
    bg_color: Color,
    offset: i64,
    scale: i64,
) -> (r: Page)
    requires
        page_properties.wf(),
        in_range(v_width as int),
        in_range(offset as int),
        10 <= scale <= 200,
    ensures
        r.page_properties == *page_properties,
        r.primitive.prop matches PrimitiveProperties::Rect { rect, color } && rect
            == spec_page_rect(*page_properties, v_width as int, offset as int, scale as int)
            && color == bg_color,
        r.wf(),
        page_top(r) == clip(offset as int),
        r.primitive.metric_wf(),
{
    let w = cmuldiv(page_properties.size.width, scale, 100);
    let h = cmuldiv(page_properties.size.height, scale, 100);
    let x = div_pos(csub(v_width, w), 2);
    let rect = Rectangle::new(Point { x, y: offset }, Size { width: w, height: h });
    proof {
        assert(0 <= w as int);
        assert(0 <= h as int);
    }
    Page {
        page_properties: *page_properties,
        primitive: Primitive { prop: PrimitiveProperties::Rect { rect, color: bg_color } },
    }
}

/// Advance the layout cursor by `delta`.  If `delta` fits in the current
/// page's remaining content height, the content area shrinks from the
/// top; otherwise a new page is allocated one scaled gap below the
/// current page and the content area resets to its padded interior.
/// Pushed pages keep the page tops strictly increasing (up to clamping).
pub fn vertical_offset_and_push(ctx: &mut LayoutCtx, pages: &mut Vec<Page>, delta: i64)
    requires
        old(ctx).wf(),
        0 <= delta as int <= MAX_COORD as int,
        pages_monotone(old(pages)@),
        pages_adjacent(old(pages)@, old(ctx).scale as int),
        old(pages)@.len() > 0 ==> page_rect_of(old(pages)@.last()) == old(ctx).page_rect,
    ensures
        final(ctx).wf(),
        final(ctx).page_properties == old(ctx).page_properties,
        final(ctx).bg_color == old(ctx).bg_color,
        final(ctx).v_width == old(ctx).v_width,
        final(ctx).scale == old(ctx).scale,
        pages_monotone(final(pages)@),
        pages_adjacent(final(pages)@, old(ctx).scale as int),
        final(pages)@.len() > 0 && old(pages)@.len() > 0 ==> page_rect_of(final(pages)@.last())
            == final(ctx).page_rect,
        ({
            let fits = (delta as int) < clip(
                old(ctx).page_content_rect.right_bottom.y - old(ctx).page_content_rect.left_top.y,
            );
            if fits {
                &&& final(pages)@ == old(pages)@
                &&& final(ctx).page_rect == old(ctx).page_rect
                &&& final(ctx).page_content_rect.left_top.y as int == clip(
                    old(ctx).page_content_rect.left_top.y + delta,
                )
                &&& final(ctx).page_content_rect.left_top.x == old(
                    ctx,
                ).page_content_rect.left_top.x
                &&& final(ctx).page_content_rect.right_bottom == old(
                    ctx,
                ).page_content_rect.right_bottom
            } else {
                &&& final(pages)@.len() == old(pages)@.len() + 1
                &&& forall|i: int|
                    0 <= i < old(pages)@.len() ==> final(pages)@[i] == old(pages)@[i]
                &&& final(pages)@.last().primitive.prop matches PrimitiveProperties::Rect {
                    rect,
                    ..
                } && rect == final(ctx).page_rect
                &&& page_top(final(pages)@.last()) == clip(
                    old(ctx).page_rect.right_bottom.y + clip(
                        tdiv(PAGE_SPACE_BETWEEN as int * old(ctx).scale, 100),
                    ),
                )
                &&& final(ctx).page_rect == spec_page_rect(
                    old(ctx).page_properties,
                    old(ctx).v_width as int,
                    clip(
                        old(ctx).page_rect.right_bottom.y + clip(
                            tdiv(PAGE_SPACE_BETWEEN as int * old(ctx).scale as int, 100),
                        ),
                    ),
                    old(ctx).scale as int,
                )
                &&& final(ctx).page_content_rect == final(ctx).page_rect.spec_add_paddings(
                    old(ctx).page_properties.paddings,
                )
            }
        }),
{
    let height = csub(ctx.page_content_rect.right_bottom.y, ctx.page_content_rect.left_top.y);
    if delta < height {
        ctx.page_content_rect = ctx.page_content_rect.move_left_top(0, delta);
    } else {
        let gap = cmuldiv(PAGE_SPACE_BETWEEN, ctx.scale, 100);
        let offset = cadd(ctx.page_rect.right_bottom.y, gap);
        let new_page = new_page_with_offset(
            &ctx.page_properties,
            ctx.v_width,
            ctx.bg_color,
            offset,
            ctx.scale,
        );
        let ghost oldpages = pages@;
        ctx.page_rect = new_page.primitive.get_rect();
        ctx.page_content_rect = ctx.page_rect.add_paddings(ctx.page_properties.paddings);
        proof {
            assert(1 <= clip(tdiv(PAGE_SPACE_BETWEEN as int * old(ctx).scale, 100)));
        }
        pages.push(new_page);
        proof {
            assert forall|i: int|
                #![trigger pages@[i], pages@[i + 1]]
                0 <= i < pages@.len() - 1 implies page_top(pages@[i]) < page_top(pages@[i + 1])
                || page_top(pages@[i + 1]) == MAX_COORD as int by {
                if i < oldpages.len() - 1 {
                    assert(pages@[i] == oldpages[i]);
                    assert(pages@[i + 1] == oldpages[i + 1]);
                    assert(page_top(oldpages[i]) < page_top(oldpages[i + 1]) || page_top(
                        oldpages[i + 1],
                    ) == MAX_COORD as int);
                } else {
                    assert(pages@[i] == oldpages[i]);
                    assert(pages@[i + 1] == new_page);
                }
            };
            assert forall|i: int|
                #![trigger pages@[i], pages@[i + 1]]
                0 <= i < pages@.len() - 1 implies page_top(pages@[i + 1]) == clip(
                page_rect_of(pages@[i]).right_bottom.y + clip(
                    tdiv(PAGE_SPACE_BETWEEN as int * old(ctx).scale, 100),
                ),
            ) by {
                if i < oldpages.len() - 1 {
                    assert(pages@[i] == oldpages[i]);
                    assert(pages@[i + 1] == oldpages[i + 1]);
                } else {
                    assert(pages@[i] == oldpages[i]);
                    assert(pages@[i + 1] == new_page);
                }
            };
        }
    }
}

/// A helper of `Rectangle` mirroring `add_paddings` at the spec level.
impl Rectangle {
    pub open spec fn spec_add_paddings(self, paddings: Paddings) -> Rectangle {
        Rectangle {
            left_top: Point {
                x: clip(self.left_top.x + paddings.left) as i64,
                y: clip(self.left_top.y + paddings.top) as i64,
            },
            right_bottom: Point {
                x: clip(self.right_bottom.x - paddings.right) as i64,
                y: clip(self.right_bottom.y - paddings.bottom) as i64,
            },
        }
    }
}

} // verus!
