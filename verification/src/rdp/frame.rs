//! The frame that the client shows: what the drawing orders and the bitmap
//! updates paint, composited into one, and the regions that change.

use crate::orders::canvas::{lemma_cell, lemma_cells_differ, max, min, CanvasView, OrderCanvas, Rect};
use vstd::prelude::*;

verus! {

/// A graphics-update region (inclusive pixel rectangle) on the framebuffer.
#[derive(Debug, Clone, Copy, PartialEq, Eq, Structural)]
pub struct UpdateRegion {
    pub left: u16,
    pub top: u16,
    pub right: u16,
    pub bottom: u16,
}

/// `v` held between 0 and the last index of `n` pixels.
pub open spec fn clamped(v: int, n: u16) -> u16 {
    min(max(v, 0), max(n - 1, 0)) as u16
}

impl UpdateRegion {
    pub open spec fn contains(self, x: int, y: int) -> bool {
        self.left <= x <= self.right && self.top <= y <= self.bottom
    }

    /// The whole of a desktop.
    pub open spec fn whole(width: u16, height: u16) -> UpdateRegion {
        UpdateRegion {
            left: 0,
            top: 0,
            right: clamped(width - 1, width),
            bottom: clamped(height - 1, height),
        }
    }

    /// The region cut to a desktop; what lies beyond an edge counts as at it.
    pub open spec fn cut(self, width: u16, height: u16) -> UpdateRegion {
        let right = clamped(self.right as int, width);
        let bottom = clamped(self.bottom as int, height);
        UpdateRegion {
            left: min(self.left as int, right as int) as u16,
            top: min(self.top as int, bottom as int) as u16,
            right,
            bottom,
        }
    }

    /// The smallest region that covers both.
    pub open spec fn join(self, other: UpdateRegion) -> UpdateRegion {
        UpdateRegion {
            left: min(self.left as int, other.left as int) as u16,
            top: min(self.top as int, other.top as int) as u16,
            right: max(self.right as int, other.right as int) as u16,
            bottom: max(self.bottom as int, other.bottom as int) as u16,
        }
    }

    /// The whole of a desktop.
    pub fn full(width: u16, height: u16) -> (r: UpdateRegion)
        ensures
            r == UpdateRegion::whole(width, height),
    {
        UpdateRegion {
            left: 0,
            top: 0,
            right: if width == 0 {
                0
            } else {
                width - 1
            },
            bottom: if height == 0 {
                0
            } else {
                height - 1
            },
        }
    }

    fn cut_to(&self, width: u16, height: u16) -> (r: UpdateRegion)
        ensures
            r == self.cut(width, height),
    {
        let right: u16 = clamp(self.right as i32, width);
        let bottom: u16 = clamp(self.bottom as i32, height);
        UpdateRegion {
            left: if self.left <= right {
                self.left
            } else {
                right
            },
            top: if self.top <= bottom {
                self.top
            } else {
                bottom
            },
            right,
            bottom,
        }
    }
}

fn clamp(v: i32, n: u16) -> (r: u16)
    ensures
        r == clamped(v as int, n),
{
    if v <= 0 || n == 0 {
        0
    } else if v >= n as i32 {
        n - 1
    } else {
        v as u16
    }
}

/// The region that covers what is pending, if anything, and a new one.
pub open spec fn joined(a: Option<UpdateRegion>, b: UpdateRegion) -> UpdateRegion {
    match a {
        Some(a) => a.join(b),
        None => b,
    }
}

/// Union two inclusive regions (for coalescing graphics updates).
pub fn union_region(a: Option<UpdateRegion>, b: UpdateRegion) -> (r: Option<UpdateRegion>)
    ensures
        r == Some(joined(a, b)),
{
    match a {
        None => Some(b),
        Some(a) => Some(
            UpdateRegion {
                left: if a.left <= b.left {
                    a.left
                } else {
                    b.left
                },
                top: if a.top <= b.top {
                    a.top
                } else {
                    b.top
                },
                right: if a.right >= b.right {
                    a.right
                } else {
                    b.right
                },
                bottom: if a.bottom >= b.bottom {
                    a.bottom
                } else {
                    b.bottom
                },
            },
        ),
    }
}

/// A dirty rectangle of the order renderer as an inclusive region on a canvas of
/// the given size.
pub open spec fn region_of(width: u16, height: u16, r: Rect) -> UpdateRegion {
    UpdateRegion {
        left: clamped(r.x as int, width),
        top: clamped(r.y as int, height),
        right: clamped(r.right_edge() - 1, width),
        bottom: clamped(r.bottom_edge() - 1, height),
    }
}

/// Convert an order-renderer dirty `Rect` (exclusive edges) to an inclusive,
/// canvas-clamped `UpdateRegion`.
pub fn order_region(canvas: &OrderCanvas, r: Rect) -> (region: UpdateRegion)
    ensures
        region == region_of(canvas@.width, canvas@.height, r),
{
    let right: i32 = r.right();
    let bottom: i32 = r.bottom();
    UpdateRegion {
        left: clamp(r.x, canvas.width()),
        top: clamp(r.y, canvas.height()),
        right: clamp(
            if right > 0 {
                right - 1
            } else {
                0
            },
            canvas.width(),
        ),
        bottom: clamp(
            if bottom > 0 {
                bottom - 1
            } else {
                0
            },
            canvas.height(),
        ),
    }
}

/// A read-only view of an RGBA32 framebuffer: the order renderer's canvas, the
/// composite, or a decoder's image.
pub trait FrameView {
    /// What the frame shows.
    spec fn shows(&self) -> CanvasView;

    /// Whether the buffer holds four bytes for every pixel.
    spec fn valid(&self) -> bool;

    fn data(&self) -> (r: &[u8])
        requires
            self.valid(),
        ensures
            self.shows().stored(r@),
    ;

    fn width(&self) -> (r: u16)
        ensures
            r == self.shows().width,
    ;

    fn height(&self) -> (r: u16)
        ensures
            r == self.shows().height,
    ;
}

impl FrameView for OrderCanvas {
    open spec fn shows(&self) -> CanvasView {
        self@
    }

    open spec fn valid(&self) -> bool {
        self.wf()
    }

    fn data(&self) -> (r: &[u8]) {
        OrderCanvas::data(self)
    }

    fn width(&self) -> (r: u16) {
        OrderCanvas::width(self)
    }

    fn height(&self) -> (r: u16) {
        OrderCanvas::height(self)
    }
}

/// The framebuffer of a decoder, borrowed.
pub struct DecodedFrame<'a> {
    pub data: &'a [u8],
    pub width: u16,
    pub height: u16,
}

impl<'a> DecodedFrame<'a> {
    /// A frame of the given size, if the buffer holds four bytes for every pixel.
    pub fn new(data: &'a [u8], width: u16, height: u16) -> (r: Option<Self>)
        ensures
            r is Some <==> data@.len() == width * height * 4,
            r matches Some(f) ==> f == (DecodedFrame { data, width, height }) && f.valid(),
    {
        proof {
            assert(0 <= width * height <= 0xFFFF * 0xFFFF) by (nonlinear_arith)
                requires
                    0 <= width <= 0xFFFF,
                    0 <= height <= 0xFFFF,
            ;
        }
        if data.len() as u64 == width as u64 * height as u64 * 4 {
            Some(DecodedFrame { data, width, height })
        } else {
            None
        }
    }
}

impl<'a> FrameView for DecodedFrame<'a> {
    open spec fn shows(&self) -> CanvasView {
        CanvasView {
            width: self.width,
            height: self.height,
            at: |x: int, y: int|
                if 0 <= x < self.width && 0 <= y < self.height {
                    let i = (y * self.width + x) * 4;
                    (self.data@[i], self.data@[i + 1], self.data@[i + 2], self.data@[i + 3])
                } else {
                    (0u8, 0u8, 0u8, 0xffu8)
                },
        }
    }

    open spec fn valid(&self) -> bool {
        self.data@.len() == self.width * self.height * 4
    }

    fn data(&self) -> (r: &[u8]) {
        self.data
    }

    fn width(&self) -> (r: u16) {
        self.width
    }

    fn height(&self) -> (r: u16) {
        self.height
    }
}

/// What a frame shows after the pixels of a region have been taken from another.
pub open spec fn overlaid(on: CanvasView, from: CanvasView, region: UpdateRegion) -> CanvasView {
    CanvasView {
        at: |x: int, y: int|
            if on.on(x, y) && region.cut(on.width, on.height).contains(x, y) {
                (from.at)(x, y)
            } else {
                (on.at)(x, y)
            },
        ..on
    }
}

/// A unified RGBA32 framebuffer that composites both graphics sources. The server
/// paints some regions with drawing orders and others with bitmap updates; each
/// writes its own buffer. Every dirty region is copied from whichever source
/// produced it into this composite, so the sink always sees the complete desktop.
pub struct CompositeFrame {
    data: Vec<u8>,
    width: u16,
    height: u16,
}

impl View for CompositeFrame {
    type V = CanvasView;

    closed spec fn view(&self) -> CanvasView {
        CanvasView {
            width: self.width,
            height: self.height,
            at: |x: int, y: int|
                if 0 <= x < self.width && 0 <= y < self.height {
                    let i = (y * self.width + x) * 4;
                    (self.data@[i], self.data@[i + 1], self.data@[i + 2], self.data@[i + 3])
                } else {
                    (0u8, 0u8, 0u8, 0xffu8)
                },
        }
    }
}

impl CompositeFrame {
    /// The buffer holds four bytes for every pixel.
    pub closed spec fn wf(self) -> bool {
        self.data@.len() == self.width * self.height * 4
    }

    pub fn new(width: u16, height: u16) -> (r: Self)
        requires
            width * height * 4 <= usize::MAX,
        ensures
            r.wf(),
            r@ == CanvasView::blank(width, height),
    {
        proof {
            assert(0 <= width * height <= width * height * 4) by (nonlinear_arith)
                requires
                    width >= 0,
                    height >= 0,
            ;
        }
        let r = CompositeFrame {
            data: vec![0u8; width as usize * height as usize * 4],
            width,
            height,
        };
        assert forall|x: int, y: int| #[trigger]
            (r@.at)(x, y) == (CanvasView::blank(width, height).at)(x, y) by {
            if 0 <= x < width && 0 <= y < height {
                lemma_cell(x, y, width as int, height as int);
            }
        }
        assert(r@.at =~= CanvasView::blank(width, height).at);
        r
    }

    /// Take a new desktop size; the frame starts out blank.
    pub fn resize(&mut self, width: u16, height: u16)
        requires
            width * height * 4 <= usize::MAX,
        ensures
            final(self).wf(),
            final(self)@ == CanvasView::blank(width, height),
    {
        *self = CompositeFrame::new(width, height);
    }

    /// Copy one pixel.
    fn copy_pixel(&mut self, src: &[u8], x: u16, y: u16, Ghost(from): Ghost<CanvasView>)
        requires
            old(self).wf(),
            old(self)@.on(x as int, y as int),
            from.width == old(self)@.width,
            from.height == old(self)@.height,
            from.stored(src@),
        ensures
            final(self).wf(),
            final(self)@.width == old(self)@.width,
            final(self)@.height == old(self)@.height,
            forall|px: int, py: int| #[trigger]
                (final(self)@.at)(px, py) == (if px == x && py == y {
                    (from.at)(px, py)
                } else {
                    (old(self)@.at)(px, py)
                }),
    {
        proof {
            lemma_cell(x as int, y as int, self.width as int, self.height as int);
            assert(0 <= y * self.width) by (nonlinear_arith)
                requires
                    y >= 0,
                    self.width >= 0,
            ;
            assert(self.data.len() == self.data@.len());
            assert(from.on(x as int, y as int));
        }
        let i: usize = (y as usize * self.width as usize + x as usize) * 4;
        self.data.set(i, src[i]);
        self.data.set(i + 1, src[i + 1]);
        self.data.set(i + 2, src[i + 2]);
        self.data.set(i + 3, src[i + 3]);
        assert forall|px: int, py: int| #[trigger]
            (self@.at)(px, py) == (if px == x && py == y {
                (from.at)(px, py)
            } else {
                (old(self)@.at)(px, py)
            }) by {
            if self@.on(px, py) && (px != x || py != y) {
                lemma_cells_differ(px, py, x as int, y as int, self.width as int);
                lemma_cell(px, py, self.width as int, self.height as int);
            }
        }
    }

    /// Copy the pixels in `region` (inclusive) from `src` into the composite. A
    /// source of another size (in the middle of a reactivation) is skipped.
    pub fn blit<F: FrameView>(&mut self, src: &F, region: UpdateRegion)
        requires
            old(self).wf(),
            src.valid(),
        ensures
            final(self).wf(),
            final(self)@ == (if src.shows().width == old(self)@.width && src.shows().height
                == old(self)@.height {
                overlaid(old(self)@, src.shows(), region)
            } else {
                old(self)@
            }),
    {
        if src.width() != self.width || src.height() != self.height {
            return;
        }
        let ghost before = self@;
        let ghost from = src.shows();
        if self.width == 0 || self.height == 0 {
            assert(overlaid(before, from, region).at =~= before.at);
            return;
        }
        let cut = region.cut_to(self.width, self.height);
        let data: &[u8] = src.data();
        let mut y: u16 = cut.top;
        while y <= cut.bottom
            invariant
                self.wf(),
                self@.width == before.width,
                self@.height == before.height,
                from.width == before.width,
                from.height == before.height,
                from.stored(data@),
                cut.left <= cut.right < before.width,
                cut.top <= y <= cut.bottom + 1,
                cut.bottom < before.height,
                forall|px: int, py: int| #[trigger]
                    (self@.at)(px, py) == (if cut.contains(px, py) && py < y {
                        (from.at)(px, py)
                    } else {
                        (before.at)(px, py)
                    }),
            decreases cut.bottom + 1 - y,
        {
            let mut x: u16 = cut.left;
            while x <= cut.right
                invariant
                    self.wf(),
                    self@.width == before.width,
                    self@.height == before.height,
                    from.width == before.width,
                    from.height == before.height,
                    from.stored(data@),
                    cut.top <= y <= cut.bottom,
                    cut.left <= x <= cut.right + 1,
                    cut.right < before.width,
                    cut.bottom < before.height,
                    forall|px: int, py: int| #[trigger]
                        (self@.at)(px, py) == (if cut.contains(px, py) && (py < y || py == y && px
                            < x) {
                            (from.at)(px, py)
                        } else {
                            (before.at)(px, py)
                        }),
                decreases cut.right + 1 - x,
            {
                self.copy_pixel(data, x, y, Ghost(from));
                x = x + 1;
            }
            y = y + 1;
        }
        assert(self@.at =~= overlaid(before, from, region).at);
    }
}

impl FrameView for CompositeFrame {
    open spec fn shows(&self) -> CanvasView {
        self@
    }

    open spec fn valid(&self) -> bool {
        self.wf()
    }

    fn data(&self) -> (r: &[u8]) {
        self.data.as_slice()
    }

    fn width(&self) -> (r: u16) {
        self.width
    }

    fn height(&self) -> (r: u16) {
        self.height
    }
}

/// A joined region covers both of its parts.
pub proof fn law_joined_regions_cover_both(a: UpdateRegion, b: UpdateRegion, x: int, y: int)
    requires
        a.contains(x, y) || b.contains(x, y),
    ensures
        joined(Some(a), b).contains(x, y),
{
}

/// A dirty region stays on the desktop.
pub proof fn law_regions_stay_on_the_desktop(width: u16, height: u16, r: Rect)
    requires
        width > 0,
        height > 0,
    ensures
        region_of(width, height, r).right < width,
        region_of(width, height, r).bottom < height,
        region_of(width, height, r).left < width,
        region_of(width, height, r).top < height,
        !r.empty() ==> region_of(width, height, r).left <= region_of(width, height, r).right,
        !r.empty() ==> region_of(width, height, r).top <= region_of(width, height, r).bottom,
{
}

/// The composite follows the order renderer: a pixel at which it shows what the
/// canvas showed before a run of orders that touched only pixels of `dirty`, shows
/// what the canvas shows after them, once the dirty region has been copied.
pub proof fn law_composite_follows_the_canvas(
    shown: CanvasView,
    before: CanvasView,
    after: CanvasView,
    dirty: Rect,
    x: int,
    y: int,
)
    requires
        shown.on(x, y),
        (shown.at)(x, y) == (before.at)(x, y),
        (after.at)(x, y) != (before.at)(x, y) ==> dirty.contains(x, y),
    ensures
        (overlaid(shown, after, region_of(shown.width, shown.height, dirty)).at)(x, y)
            == (after.at)(x, y),
{
    let region = region_of(shown.width, shown.height, dirty);
    if dirty.contains(x, y) {
        assert(region.cut(shown.width, shown.height).contains(x, y));
    }
}

} // verus!
