//! `OrderCanvas`: a plain RGBA32 framebuffer with the blit primitives the RDP
//! primary drawing orders need.

use crate::orders::color::{rgba, Rgba};
use crate::orders::rop::Rop3;
use vstd::prelude::*;

verus! {

/// `x` held within the range of a 32-bit signed integer.
pub open spec fn sat32(x: int) -> i32 {
    if x < i32::MIN {
        i32::MIN
    } else if x > i32::MAX {
        i32::MAX
    } else {
        x as i32
    }
}

pub open spec fn max(a: int, b: int) -> int {
    if a >= b {
        a
    } else {
        b
    }
}

pub open spec fn min(a: int, b: int) -> int {
    if a <= b {
        a
    } else {
        b
    }
}

fn sat_add(a: i32, b: i32) -> (r: i32)
    ensures
        r == sat32(a + b),
{
    let s: i64 = a as i64 + b as i64;
    if s < i32::MIN as i64 {
        i32::MIN
    } else if s > i32::MAX as i64 {
        i32::MAX
    } else {
        s as i32
    }
}

fn sat_sub(a: i32, b: i32) -> (r: i32)
    ensures
        r == sat32(a - b),
{
    let s: i64 = a as i64 - b as i64;
    if s < i32::MIN as i64 {
        i32::MIN
    } else if s > i32::MAX as i64 {
        i32::MAX
    } else {
        s as i32
    }
}

fn max32(a: i32, b: i32) -> (r: i32)
    ensures
        r == max(a as int, b as int),
{
    if a >= b {
        a
    } else {
        b
    }
}

fn min32(a: i32, b: i32) -> (r: i32)
    ensures
        r == min(a as int, b as int),
{
    if a <= b {
        a
    } else {
        b
    }
}

/// A rectangle in pixel space, the right and bottom edges outside it
/// (x..x+w, y..y+h).
#[derive(Debug, Clone, Copy, PartialEq, Eq, Structural)]
pub struct Rect {
    pub x: i32,
    pub y: i32,
    pub w: i32,
    pub h: i32,
}

impl Rect {
    /// The rectangle with the given inclusive edges; sizes saturate.
    pub open spec fn inclusive(left: i32, top: i32, right: i32, bottom: i32) -> Rect {
        Rect {
            x: left,
            y: top,
            w: sat32(sat32(right - left) + 1),
            h: sat32(sat32(bottom - top) + 1),
        }
    }

    pub open spec fn right_edge(self) -> i32 {
        sat32(self.x + self.w)
    }

    pub open spec fn bottom_edge(self) -> i32 {
        sat32(self.y + self.h)
    }

    pub open spec fn empty(self) -> bool {
        self.w <= 0 || self.h <= 0
    }

    /// Whether the pixel `(x, y)` lies in the rectangle.
    pub open spec fn contains(self, x: int, y: int) -> bool {
        self.x <= x < self.x + self.w && self.y <= y < self.y + self.h
    }

    /// Whether the edges of the rectangle lie on the canvas.
    pub open spec fn on_canvas(self, canvas: CanvasView) -> bool {
        &&& 0 <= self.x
        &&& self.x + self.w <= canvas.width
        &&& 0 <= self.y
        &&& self.y + self.h <= canvas.height
    }

    pub open spec fn meet(self, other: Rect) -> Rect {
        let x = max(self.x as int, other.x as int);
        let y = max(self.y as int, other.y as int);
        Rect {
            x: x as i32,
            y: y as i32,
            w: sat32(min(self.right_edge() as int, other.right_edge() as int) - x),
            h: sat32(min(self.bottom_edge() as int, other.bottom_edge() as int) - y),
        }
    }

    pub open spec fn join(self, other: Rect) -> Rect {
        if self.empty() {
            other
        } else if other.empty() {
            self
        } else {
            let x = min(self.x as int, other.x as int);
            let y = min(self.y as int, other.y as int);
            Rect {
                x: x as i32,
                y: y as i32,
                w: sat32(max(self.right_edge() as int, other.right_edge() as int) - x),
                h: sat32(max(self.bottom_edge() as int, other.bottom_edge() as int) - y),
            }
        }
    }

    pub fn new(x: i32, y: i32, w: i32, h: i32) -> (r: Self)
        ensures
            r == (Rect { x, y, w, h }),
    {
        Self { x, y, w, h }
    }

    /// Build from RDP left/top + width/height.
    pub fn from_ltwh(left: i32, top: i32, width: i32, height: i32) -> (r: Self)
        ensures
            r == (Rect { x: left, y: top, w: width, h: height }),
    {
        Self { x: left, y: top, w: width, h: height }
    }

    /// Build from inclusive left/top/right/bottom (RDP bounds use inclusive
    /// right/bottom). The edges are independent wire values with no ordering
    /// guarantee, so the sizes saturate.
    pub fn from_inclusive(left: i32, top: i32, right: i32, bottom: i32) -> (r: Self)
        ensures
            r == Rect::inclusive(left, top, right, bottom),
    {
        Self {
            x: left,
            y: top,
            w: sat_add(sat_sub(right, left), 1),
            h: sat_add(sat_sub(bottom, top), 1),
        }
    }

    pub fn right(&self) -> (r: i32)
        ensures
            r == self.right_edge(),
    {
        sat_add(self.x, self.w)
    }

    pub fn bottom(&self) -> (r: i32)
        ensures
            r == self.bottom_edge(),
    {
        sat_add(self.y, self.h)
    }

    pub fn is_empty(&self) -> (r: bool)
        ensures
            r == self.empty(),
    {
        self.w <= 0 || self.h <= 0
    }

    /// Intersection of two rects (empty if disjoint).
    pub fn intersect(&self, other: &Rect) -> (r: Rect)
        ensures
            r == self.meet(*other),
    {
        let x: i32 = max32(self.x, other.x);
        let y: i32 = max32(self.y, other.y);
        let right: i32 = min32(self.right(), other.right());
        let bottom: i32 = min32(self.bottom(), other.bottom());
        Rect { x, y, w: sat_sub(right, x), h: sat_sub(bottom, y) }
    }

    /// Union (bounding box) of two rects; an empty one does not count.
    pub fn union(&self, other: &Rect) -> (r: Rect)
        ensures
            r == self.join(*other),
    {
        if self.is_empty() {
            return *other;
        }
        if other.is_empty() {
            return *self;
        }
        let x: i32 = min32(self.x, other.x);
        let y: i32 = min32(self.y, other.y);
        let right: i32 = max32(self.right(), other.right());
        let bottom: i32 = max32(self.bottom(), other.bottom());
        Rect { x, y, w: sat_sub(right, x), h: sat_sub(bottom, y) }
    }
}

/// Intersecting the destination with the canvas and the bounds picks exactly
/// the pixels that lie in all three.
proof fn lemma_clip(cv: CanvasView, dst: Rect, bounds: Option<Rect>)
    ensures
        !cv.clip(dst, bounds).empty() ==> {
            let r = cv.clip(dst, bounds);
            &&& 0 <= r.x
            &&& 0 <= r.y
            &&& r.x + r.w <= cv.width
            &&& r.y + r.h <= cv.height
        },
        forall|x: int, y: int|
            (#[trigger] cv.on(x, y) && dst.contains(x, y) && within(bounds, x, y)) <==> (!cv.clip(
                dst,
                bounds,
            ).empty() && cv.clip(dst, bounds).contains(x, y)),
{
}

/// What `paint_in` does, told by the clipped rectangle.
proof fn lemma_paint_in(
    cv: CanvasView,
    dst: Rect,
    bounds: Option<Rect>,
    f: spec_fn(int, int) -> Option<Rgba>,
)
    ensures
        forall|x: int, y: int| #[trigger]
            (cv.paint_in(dst, bounds, f).at)(x, y) == (if !cv.clip(dst, bounds).empty() && cv.clip(
                dst,
                bounds,
            ).contains(x, y) {
                match f(x, y) {
                    Some(c) => (c.0, c.1, c.2, 0xffu8),
                    None => (cv.at)(x, y),
                }
            } else {
                (cv.at)(x, y)
            }),
{
    lemma_clip(cv, dst, bounds);
    assert forall|x: int, y: int| #[trigger]
        (cv.paint_in(dst, bounds, f).at)(x, y) == (if !cv.clip(dst, bounds).empty() && cv.clip(
            dst,
            bounds,
        ).contains(x, y) {
            match f(x, y) {
                Some(c) => (c.0, c.1, c.2, 0xffu8),
                None => (cv.at)(x, y),
            }
        } else {
            (cv.at)(x, y)
        }) by {
        assert(cv.on(x, y) || !cv.on(x, y));
    }
}

/// A pixel of a `w` by `h` grid has its position below `w * h`.
pub proof fn lemma_cell(x: int, y: int, w: int, h: int)
    requires
        0 <= x < w,
        0 <= y < h,
    ensures
        0 <= y * w + x < w * h,
{
    assert(y * w + x < w * h) by (nonlinear_arith)
        requires
            0 <= x < w,
            0 <= y < h,
    ;
    assert(0 <= y * w + x) by (nonlinear_arith)
        requires
            0 <= x < w,
            0 <= y < h,
    ;
}

/// Distinct pixels have distinct positions.
pub proof fn lemma_cells_differ(x1: int, y1: int, x2: int, y2: int, w: int)
    requires
        0 <= x1 < w,
        0 <= x2 < w,
        y1 != y2 || x1 != x2,
    ensures
        y1 * w + x1 != y2 * w + x2,
{
    if y1 < y2 {
        assert(y1 * w + w <= y2 * w) by (nonlinear_arith)
            requires
                y1 + 1 <= y2,
                w >= 0,
        ;
    } else if y2 < y1 {
        assert(y2 * w + w <= y1 * w) by (nonlinear_arith)
            requires
                y2 + 1 <= y1,
                w >= 0,
        ;
    }
}

/// A decoded bitmap (RGBA32, top-down): an entry of the bitmap cache, used as
/// the source of MemBlt.
#[derive(Debug, Clone)]
pub struct Bitmap {
    pub width: u16,
    pub height: u16,
    /// RGBA32, top-down, `width * height * 4` bytes.
    pub data: Vec<u8>,
}

#[verifier::ext_equal]
pub struct BitmapView {
    pub width: u16,
    pub height: u16,
    pub data: Seq<u8>,
}

impl BitmapView {
    pub open spec fn wf(self) -> bool {
        self.data.len() == self.width * self.height * 4
    }

    pub open spec fn pixel(self, x: int, y: int) -> Option<Rgba> {
        if 0 <= x < self.width && 0 <= y < self.height {
            let i = (y * self.width + x) * 4;
            Some((self.data[i], self.data[i + 1], self.data[i + 2], self.data[i + 3]))
        } else {
            None
        }
    }
}

impl View for Bitmap {
    type V = BitmapView;

    open spec fn view(&self) -> BitmapView {
        BitmapView { width: self.width, height: self.height, data: self.data@ }
    }
}

impl Bitmap {
    pub fn new(width: u16, height: u16, data: Vec<u8>) -> (r: Self)
        requires
            data@.len() == width * height * 4,
        ensures
            r@ == (BitmapView { width, height, data: data@ }),
            r@.wf(),
    {
        Self { width, height, data }
    }

    pub fn pixel(&self, x: i32, y: i32) -> (r: Option<[u8; 4]>)
        requires
            self@.wf(),
        ensures
            match r {
                Some(c) => self@.pixel(x as int, y as int) == Some(rgba(c)),
                None => self@.pixel(x as int, y as int) is None,
            },
    {
        if x < 0 || y < 0 || x >= self.width as i32 || y >= self.height as i32 {
            return None;
        }
        proof {
            lemma_cell(x as int, y as int, self.width as int, self.height as int);
            assert(self.width * self.height <= 65535 * 65535) by (nonlinear_arith)
                requires
                    self.width <= 65535,
                    self.height <= 65535,
            ;
            assert(0 <= y * self.width <= y * self.width + x);
            assert(self.data.len() == self.data@.len());
        }
        let idx: usize = (y as usize * self.width as usize + x as usize) * 4;
        Some([self.data[idx], self.data[idx + 1], self.data[idx + 2], self.data[idx + 3]])
    }
}

/// What is on a canvas: its size and the color of every pixel. Off the canvas
/// every pixel reads as opaque black.
#[verifier::ext_equal]
pub struct CanvasView {
    pub width: u16,
    pub height: u16,
    pub at: spec_fn(int, int) -> Rgba,
}

/// A pixel that was never painted, or one that was.
pub open spec fn blank_or_opaque_pixel(c: Rgba) -> bool {
    c == (0u8, 0u8, 0u8, 0u8) || c.3 == 0xff
}

/// The four bytes of pixel `i` of a buffer.
pub open spec fn stored_pixel(data: Seq<u8>, i: int) -> Rgba {
    (data[4 * i], data[4 * i + 1], data[4 * i + 2], data[4 * i + 3])
}

pub open spec fn within(bounds: Option<Rect>, x: int, y: int) -> bool {
    match bounds {
        Some(b) => b.contains(x, y),
        None => true,
    }
}

/// Pixel `(gx, gy)` of a 1-bit-per-pixel glyph, `ceil(cx/8)` bytes per row,
/// MSB-first; missing bytes are clear.
pub open spec fn glyph_bit(aj: Seq<u8>, cx: int, gx: int, gy: int) -> bool {
    let i = gy * ((cx + 7) / 8) + gx / 8;
    0 <= i < aj.len() && (aj[i] >> ((7 - gx % 8) as u8)) & 1u8 != 0
}

impl CanvasView {
    /// A canvas with every byte zero.
    pub open spec fn blank(width: u16, height: u16) -> CanvasView {
        CanvasView {
            width,
            height,
            at: |x: int, y: int|
                if 0 <= x < width && 0 <= y < height {
                    (0u8, 0u8, 0u8, 0u8)
                } else {
                    (0u8, 0u8, 0u8, 0xffu8)
                },
        }
    }

    pub open spec fn on(self, x: int, y: int) -> bool {
        0 <= x < self.width && 0 <= y < self.height
    }

    /// Every pixel is all zero or has full alpha.
    pub open spec fn blank_or_opaque(self) -> bool {
        forall|x: int, y: int| blank_or_opaque_pixel(#[trigger] (self.at)(x, y))
    }

    /// Whether `data` holds the pixels row by row, four bytes (red, green, blue,
    /// alpha) each.
    pub open spec fn stored(self, data: Seq<u8>) -> bool {
        &&& data.len() == self.width * self.height * 4
        &&& forall|x: int, y: int| #[trigger]
            self.on(x, y) ==> {
                let i = (y * self.width + x) * 4;
                (data[i], data[i + 1], data[i + 2], data[i + 3]) == (self.at)(x, y)
            }
    }

    /// Pixel `i` of the buffer is the one in row `i / width`.
    pub proof fn lemma_stored_pixel(self, data: Seq<u8>, i: int)
        requires
            self.stored(data),
            0 <= i < self.width * self.height,
        ensures
            stored_pixel(data, i) == (self.at)(i % (self.width as int), i / (self.width as int)),
    {
        let (w, h) = (self.width as int, self.height as int);
        assert(w > 0) by (nonlinear_arith)
            requires
                0 <= i < w * h,
                w >= 0,
        ;
        let (x, y) = (i % w, i / w);
        assert(i == y * w + x && 0 <= x < w && 0 <= y < h) by (nonlinear_arith)
            requires
                0 <= i < w * h,
                w > 0,
                x == i % w,
                y == i / w,
        ;
        assert(self.on(x, y));
    }

    /// Paint each pixel of the canvas for which `f` gives a color, opaque.
    pub open spec fn paint(self, f: spec_fn(int, int) -> Option<Rgba>) -> CanvasView {
        CanvasView {
            at: |x: int, y: int|
                match f(x, y) {
                    Some(c) => if self.on(x, y) {
                        (c.0, c.1, c.2, 0xffu8)
                    } else {
                        (self.at)(x, y)
                    },
                    None => (self.at)(x, y),
                },
            ..self
        }
    }

    /// A destination rect clipped to the canvas and (optionally) to bounds.
    pub open spec fn clip(self, dst: Rect, bounds: Option<Rect>) -> Rect {
        let r = dst.meet(Rect { x: 0, y: 0, w: self.width as i32, h: self.height as i32 });
        match bounds {
            Some(b) => r.meet(b),
            None => r,
        }
    }

    /// Paint the pixels of `dst` that the bounds let through.
    pub open spec fn paint_in(
        self,
        dst: Rect,
        bounds: Option<Rect>,
        f: spec_fn(int, int) -> Option<Rgba>,
    ) -> CanvasView {
        self.paint(
            |x: int, y: int|
                if dst.contains(x, y) && within(bounds, x, y) {
                    f(x, y)
                } else {
                    None
                },
        )
    }

    /// Solid fill.
    pub open spec fn fill(self, dst: Rect, bounds: Option<Rect>, color: Rgba) -> CanvasView {
        self.paint_in(dst, bounds, |x: int, y: int| Some(color))
    }

    /// A glyph with its top left at `(gx, gy)`: set bits take the color.
    pub open spec fn glyph(
        self,
        gx: i32,
        gy: i32,
        cx: u16,
        cy: u16,
        aj: Seq<u8>,
        bounds: Option<Rect>,
        color: Rgba,
    ) -> CanvasView {
        self.paint_in(
            Rect { x: gx, y: gy, w: cx as i32, h: cy as i32 },
            bounds,
            |x: int, y: int|
                if glyph_bit(aj, cx as int, x - gx, y - gy) {
                    Some(color)
                } else {
                    None
                },
        )
    }

    /// A destination-only raster operation: black, white, inverted, or nothing.
    pub open spec fn rop(self, dst: Rect, bounds: Option<Rect>, rop: Rop3) -> CanvasView {
        if rop.0 == Rop3::BLACKNESS {
            self.fill(dst, bounds, (0u8, 0u8, 0u8, 0xffu8))
        } else if rop.0 == Rop3::WHITENESS {
            self.fill(dst, bounds, (0xffu8, 0xffu8, 0xffu8, 0xffu8))
        } else if rop.0 == Rop3::DSTINVERT {
            self.paint_in(
                dst,
                bounds,
                |x: int, y: int|
                    {
                        let c = (self.at)(x, y);
                        Some((!c.0, !c.1, !c.2, 0xffu8))
                    },
            )
        } else {
            self
        }
    }

    /// Screen-to-screen copy: each pixel takes what was at the same place of the
    /// source before the copy, if that is on the canvas.
    pub open spec fn copy(
        self,
        dst: Rect,
        bounds: Option<Rect>,
        src_x: i32,
        src_y: i32,
    ) -> CanvasView {
        self.paint_in(
            dst,
            bounds,
            |x: int, y: int|
                {
                    let sx = x - dst.x + src_x;
                    let sy = y - dst.y + src_y;
                    if self.on(sx, sy) {
                        Some((self.at)(sx, sy))
                    } else {
                        None
                    }
                },
        )
    }

    /// A blit from a bitmap: pixels that the bitmap does not have are kept.
    pub open spec fn blit(
        self,
        dst: Rect,
        bounds: Option<Rect>,
        src: BitmapView,
        src_x: i32,
        src_y: i32,
    ) -> CanvasView {
        self.paint_in(
            dst,
            bounds,
            |x: int, y: int| src.pixel(x - dst.x + src_x, y - dst.y + src_y),
        )
    }
}

pub struct OrderCanvas {
    width: u16,
    height: u16,
    data: Vec<u8>,
}

impl View for OrderCanvas {
    type V = CanvasView;

    closed spec fn view(&self) -> CanvasView {
        CanvasView {
            width: self.width,
            height: self.height,
            at: |x: int, y: int|
                if 0 <= x < self.width && 0 <= y < self.height {
                    let i = (y * self.width + x) * 4;
                    (self.data@[i], self.data@[i + 1], self.data@[i + 2], self.data@[i + 3])
                } else {
                    (0u8, 0u8, 0u8, 0xffu8)
                },
        }
    }
}

impl OrderCanvas {
    /// The buffer holds four bytes for every pixel, and each pixel is blank or
    /// opaque.
    pub closed spec fn wf(self) -> bool {
        &&& self.data@.len() == self.width * self.height * 4
        &&& self@.blank_or_opaque()
    }

    pub fn new(width: u16, height: u16) -> (r: Self)
        requires
            width * height * 4 <= usize::MAX,
        ensures
            r.wf(),
            r@ == CanvasView::blank(width, height),
    {
        let mut c = Self { width: 0, height: 0, data: Vec::new() };
        assert(0u16 * 0u16 * 4 == 0);
        c.resize(width, height);
        c
    }

    pub fn width(&self) -> (r: u16)
        ensures
            r == self@.width,
    {
        self.width
    }

    pub fn height(&self) -> (r: u16)
        ensures
            r == self@.height,
    {
        self.height
    }

    /// The pixels row by row, four bytes (red, green, blue, alpha) each: all zero
    /// where nothing was painted, full alpha elsewhere.
    pub fn data(&self) -> (r: &[u8])
        requires
            self.wf(),
        ensures
            self@.stored(r@),
            self@.blank_or_opaque(),
            forall|i: int|
                0 <= i < self@.width * self@.height ==> blank_or_opaque_pixel(
                    #[trigger] stored_pixel(r@, i),
                ),
    {
        proof {
            assert forall|i: int| 0 <= i < self@.width * self@.height implies blank_or_opaque_pixel(
                #[trigger] stored_pixel(self.data@, i),
            ) by {
                self@.lemma_stored_pixel(self.data@, i);
            }
        }
        self.data.as_slice()
    }

    /// Resize (used on reactivation with a new desktop size). Contents are
    /// cleared to black.
    pub fn resize(&mut self, width: u16, height: u16)
        requires
            width * height * 4 <= usize::MAX,
        ensures
            final(self).wf(),
            final(self)@ == CanvasView::blank(width, height),
    {
        proof {
            assert(0 <= width * height <= width * height * 4) by (nonlinear_arith)
                requires
                    width >= 0,
                    height >= 0,
            ;
        }
        self.width = width;
        self.height = height;
        self.data = vec![0u8; width as usize * height as usize * 4];
        assert forall|x: int, y: int| #[trigger] (self@.at)(x, y) == (CanvasView::blank(width, height).at)(
            x,
            y,
        ) by {
            if 0 <= x < width && 0 <= y < height {
                lemma_cell(x, y, width as int, height as int);
            }
        }
        assert(self@.at =~= CanvasView::blank(width, height).at);
    }

    fn idx(&self, x: i32, y: i32) -> (i: usize)
        requires
            self.wf(),
            self@.on(x as int, y as int),
        ensures
            i == (y * self.width + x) * 4,
            i + 3 < self.data@.len(),
    {
        proof {
            lemma_cell(x as int, y as int, self.width as int, self.height as int);
            assert(0 <= y * self.width) by (nonlinear_arith)
                requires
                    y >= 0,
                    self.width >= 0,
            ;
            assert(self.data.len() == self.data@.len());
        }
        (y as usize * self.width as usize + x as usize) * 4
    }

    /// In-bounds guard for `get`/`put`.
    fn in_bounds(&self, x: i32, y: i32) -> (r: bool)
        ensures
            r == self@.on(x as int, y as int),
    {
        x >= 0 && y >= 0 && x < self.width as i32 && y < self.height as i32
    }

    pub fn get(&self, x: i32, y: i32) -> (r: [u8; 4])
        requires
            self.wf(),
        ensures
            rgba(r) == (self@.at)(x as int, y as int),
    {
        if !self.in_bounds(x, y) {
            return [0, 0, 0, 0xff];
        }
        let i: usize = self.idx(x, y);
        [self.data[i], self.data[i + 1], self.data[i + 2], self.data[i + 3]]
    }

    pub fn put(&mut self, x: i32, y: i32, c: [u8; 4])
        requires
            old(self).wf(),
        ensures
            final(self).wf(),
            final(self)@ == old(self)@.paint(
                |px: int, py: int|
                    if px == x && py == y {
                        Some(rgba(c))
                    } else {
                        None
                    },
            ),
    {
        let ghost f = |px: int, py: int|
            if px == x && py == y {
                Some(rgba(c))
            } else {
                None
            };
        if self.in_bounds(x, y) {
            let i: usize = self.idx(x, y);
            self.data.set(i, c[0]);
            self.data.set(i + 1, c[1]);
            self.data.set(i + 2, c[2]);
            self.data.set(i + 3, 0xff);
            assert forall|px: int, py: int| #[trigger] (self@.at)(px, py) == (old(self)@.paint(f).at)(
                px,
                py,
            ) by {
                if self@.on(px, py) {
                    lemma_cell(px, py, self.width as int, self.height as int);
                    if px != x || py != y {
                        lemma_cells_differ(px, py, x as int, y as int, self.width as int);
                    }
                }
            }
        }
        assert(self@.at =~= old(self)@.paint(f).at);
    }

    /// Clip a destination rect to the canvas and (optionally) a bounds rect.
    pub(crate) fn clip(&self, dst: Rect, bounds: Option<Rect>) -> (r: Rect)
        ensures
            r == self@.clip(dst, bounds),
    {
        let canvas = Rect::new(0, 0, self.width as i32, self.height as i32);
        let mut r = dst.intersect(&canvas);
        if let Some(b) = bounds {
            r = r.intersect(&b);
        }
        r
    }

    /// Visit the pixels of the clipped destination row by row and paint those
    /// for which `pick` gives a color.
    fn paint_rect<F: Fn(i32, i32) -> Option<[u8; 4]>>(
        &mut self,
        dst: Rect,
        bounds: Option<Rect>,
        pick: F,
        Ghost(f): Ghost<spec_fn(int, int) -> Option<Rgba>>,
    ) -> (r: Rect)
        requires
            old(self).wf(),
            forall|x: i32, y: i32|
                old(self)@.on(x as int, y as int) && dst.contains(x as int, y as int)
                    ==> #[trigger] pick.requires((x, y)),
            forall|x: i32, y: i32, c: Option<[u8; 4]>| #[trigger]
                pick.ensures((x, y), c) ==> f(x as int, y as int) == (match c {
                    Some(c) => Some(rgba(c)),
                    None => None,
                }),
        ensures
            final(self).wf(),
            r == old(self)@.clip(dst, bounds),
            final(self)@ == old(self)@.paint_in(dst, bounds, f),
    {
        let r = self.clip(dst, bounds);
        let ghost base = self@;
        let ghost target = self@.paint_in(dst, bounds, f);
        proof {
            lemma_clip(base, dst, bounds);
            lemma_paint_in(base, dst, bounds, f);
        }
        if r.is_empty() {
            assert(base.at =~= target.at);
            return r;
        }
        let right: i32 = r.right();
        let bottom: i32 = r.bottom();
        let mut y: i32 = r.y;
        while y < bottom
            invariant
                self.wf(),
                self@.width == base.width,
                self@.height == base.height,
                r == base.clip(dst, bounds),
                !r.empty(),
                0 <= r.x,
                0 <= r.y,
                right == r.x + r.w <= base.width,
                bottom == r.y + r.h <= base.height,
                r.y <= y <= bottom,
                forall|x: int, y: int|
                    (#[trigger] base.on(x, y) && dst.contains(x, y) && within(bounds, x, y))
                        <==> r.contains(x, y),
                forall|px: int, py: int| #[trigger]
                    (target.at)(px, py) == (if r.contains(px, py) {
                        match f(px, py) {
                            Some(c) => (c.0, c.1, c.2, 0xffu8),
                            None => (base.at)(px, py),
                        }
                    } else {
                        (base.at)(px, py)
                    }),
                forall|px: int, py: int| #[trigger]
                    (self@.at)(px, py) == (if py < y {
                        (target.at)(px, py)
                    } else {
                        (base.at)(px, py)
                    }),
                forall|x: i32, y: i32|
                    base.on(x as int, y as int) && dst.contains(x as int, y as int)
                        ==> #[trigger] pick.requires((x, y)),
                forall|x: i32, y: i32, c: Option<[u8; 4]>| #[trigger]
                    pick.ensures((x, y), c) ==> f(x as int, y as int) == (match c {
                        Some(c) => Some(rgba(c)),
                        None => None,
                    }),
            decreases bottom - y,
        {
            let mut x: i32 = r.x;
            while x < right
                invariant
                    self.wf(),
                    self@.width == base.width,
                    self@.height == base.height,
                    0 <= r.x,
                    0 <= r.y,
                    right == r.x + r.w <= base.width,
                    bottom == r.y + r.h <= base.height,
                    r.y <= y < bottom,
                    r.x <= x <= right,
                    forall|x: int, y: int|
                        (#[trigger] base.on(x, y) && dst.contains(x, y) && within(bounds, x, y))
                            <==> r.contains(x, y),
                    forall|px: int, py: int| #[trigger]
                        (target.at)(px, py) == (if r.contains(px, py) {
                            match f(px, py) {
                                Some(c) => (c.0, c.1, c.2, 0xffu8),
                                None => (base.at)(px, py),
                            }
                        } else {
                            (base.at)(px, py)
                        }),
                    forall|px: int, py: int| #[trigger]
                        (self@.at)(px, py) == (if py < y || (py == y && px < x) {
                            (target.at)(px, py)
                        } else {
                            (base.at)(px, py)
                        }),
                    forall|x: i32, y: i32|
                        base.on(x as int, y as int) && dst.contains(x as int, y as int)
                            ==> #[trigger] pick.requires((x, y)),
                    forall|x: i32, y: i32, c: Option<[u8; 4]>| #[trigger]
                        pick.ensures((x, y), c) ==> f(x as int, y as int) == (match c {
                            Some(c) => Some(rgba(c)),
                            None => None,
                        }),
                decreases right - x,
            {
                assert(r.contains(x as int, y as int));
                assert(base.on(x as int, y as int));
                match pick(x, y) {
                    Some(c) => self.put(x, y, c),
                    None => {},
                }
                x = x + 1;
            }
            y = y + 1;
        }
        assert(self@.at =~= target.at);
        r
    }

    /// Solid fill (OpaqueRect, PatBlt with solid brush, DstBlt blackness and
    /// whiteness).
    pub fn fill_rect(&mut self, dst: Rect, bounds: Option<Rect>, color: [u8; 4]) -> (r: Rect)
        requires
            old(self).wf(),
        ensures
            final(self).wf(),
            r == old(self)@.clip(dst, bounds),
            final(self)@ == old(self)@.fill(dst, bounds, rgba(color)),
    {
        let pick = |x: i32, y: i32| -> (c: Option<[u8; 4]>)
            ensures
                c == Some(color),
            { Some(color) };
        self.paint_rect(dst, bounds, pick, Ghost(|x: int, y: int| Some(rgba(color))))
    }

    /// Blit a 1-bit-per-pixel glyph at `(x, y)`. `aj` is the glyph bitmap,
    /// `ceil(cx/8)` bytes per row, MSB-first (bit 7 = leftmost pixel); set bits
    /// are painted `color`, clear bits are left unchanged. Clipped to the canvas
    /// and the optional bounds rect. Returns the touched (clipped) rect.
    pub fn blit_glyph(
        &mut self,
        x: i32,
        y: i32,
        cx: u16,
        cy: u16,
        aj: &[u8],
        bounds: Option<Rect>,
        color: [u8; 4],
    ) -> (r: Rect)
        requires
            old(self).wf(),
        ensures
            final(self).wf(),
            r == old(self)@.clip(Rect { x, y, w: cx as i32, h: cy as i32 }, bounds),
            final(self)@ == old(self)@.glyph(x, y, cx, cy, aj@, bounds, rgba(color)),
    {
        let dst = Rect::from_ltwh(x, y, cx as i32, cy as i32);
        let row_bytes: usize = (cx as usize + 7) / 8;
        let pick = |px: i32, py: i32| -> (c: Option<[u8; 4]>)
            requires
                x <= px < x + cx,
                y <= py < y + cy,
            ensures
                c == (if glyph_bit(aj@, cx as int, px - x, py - y) {
                    Some(color)
                } else {
                    None
                }),
            {
                let gx: usize = (px as i64 - x as i64) as usize;
                let gy: usize = (py as i64 - y as i64) as usize;
                proof {
                    assert(0 <= gy * row_bytes <= 65535 * 8192) by (nonlinear_arith)
                        requires
                            0 <= gy <= 65535,
                            0 <= row_bytes <= 8192,
                    ;
                }
                let i: usize = gy * row_bytes + gx / 8;
                if i < aj.len() && (aj[i] >> ((7 - gx % 8) as u8)) & 1 != 0 {
                    Some(color)
                } else {
                    None
                }
            };
        self.paint_rect(
            dst,
            bounds,
            pick,
            Ghost(
                |px: int, py: int|
                    if glyph_bit(aj@, cx as int, px - x, py - y) {
                        Some(rgba(color))
                    } else {
                        None
                    },
            ),
        )
    }

    /// Blit a source bitmap (MemBlt). `src_x`/`src_y` is the top-left within
    /// the source bitmap. Only SRCCOPY is implemented; other ROPs SRCCOPY.
    pub fn blit_bitmap(
        &mut self,
        dst: Rect,
        bounds: Option<Rect>,
        src: &Bitmap,
        src_x: i32,
        src_y: i32,
    ) -> (r: Rect)
        requires
            old(self).wf(),
            src@.wf(),
        ensures
            final(self).wf(),
            r == old(self)@.clip(dst, bounds),
            final(self)@ == old(self)@.blit(dst, bounds, src@, src_x, src_y),
    {
        let pick = |x: i32, y: i32| -> (c: Option<[u8; 4]>)
            requires
                src@.wf(),
            ensures
                (match c {
                    Some(c) => Some(rgba(c)),
                    None => None,
                }) == src@.pixel(x - dst.x + src_x, y - dst.y + src_y),
            {
                let sx: i64 = src_x as i64 + (x as i64 - dst.x as i64);
                let sy: i64 = src_y as i64 + (y as i64 - dst.y as i64);
                if 0 <= sx && sx < 0x10000 && 0 <= sy && sy < 0x10000 {
                    src.pixel(sx as i32, sy as i32)
                } else {
                    None
                }
            };
        self.paint_rect(
            dst,
            bounds,
            pick,
            Ghost(|x: int, y: int| src@.pixel(x - dst.x + src_x, y - dst.y + src_y)),
        )
    }

    /// Invert the pixels `x0..x1` of row `y`.
    fn invert_row(&mut self, x0: i32, x1: i32, y: i32)
        requires
            old(self).wf(),
            0 <= x0 <= x1 <= old(self)@.width,
            0 <= y < old(self)@.height,
        ensures
            final(self).wf(),
            final(self)@.width == old(self)@.width,
            final(self)@.height == old(self)@.height,
            forall|px: int, py: int| #[trigger]
                (final(self)@.at)(px, py) == (if py == y && x0 <= px < x1 {
                    let c = (old(self)@.at)(px, py);
                    (!c.0, !c.1, !c.2, 0xffu8)
                } else {
                    (old(self)@.at)(px, py)
                }),
    {
        let ghost base = self@;
        let mut x: i32 = x0;
        while x < x1
            invariant
                self.wf(),
                self@.width == base.width,
                self@.height == base.height,
                0 <= x0 <= x <= x1 <= base.width,
                0 <= y < base.height,
                forall|px: int, py: int| #[trigger]
                    (self@.at)(px, py) == (if py == y && x0 <= px < x {
                        let c = (base.at)(px, py);
                        (!c.0, !c.1, !c.2, 0xffu8)
                    } else {
                        (base.at)(px, py)
                    }),
            decreases x1 - x,
        {
            let c: [u8; 4] = self.get(x, y);
            self.put(x, y, [!c[0], !c[1], !c[2], 0xff]);
            x = x + 1;
        }
    }

    /// Apply a destination-only ROP3 (no source/pattern): BLACKNESS (0x00),
    /// WHITENESS (0xFF), DSTINVERT (0x55). Other dest-only codes fall back to
    /// a no-op.
    pub fn dst_rop(&mut self, dst: Rect, bounds: Option<Rect>, rop: Rop3) -> (r: Rect)
        requires
            old(self).wf(),
        ensures
            final(self).wf(),
            r == old(self)@.clip(dst, bounds),
            final(self)@ == old(self)@.rop(dst, bounds, rop),
    {
        let r = self.clip(dst, bounds);
        let ghost base = self@;
        let ghost f = |x: int, y: int|
            {
                let c = (base.at)(x, y);
                Some((!c.0, !c.1, !c.2, 0xffu8))
            };
        proof {
            lemma_clip(base, dst, bounds);
            lemma_paint_in(base, dst, bounds, f);
        }
        if rop.0 == Rop3::BLACKNESS {
            self.fill_rect(dst, bounds, [0, 0, 0, 0xff]);
        } else if rop.0 == Rop3::WHITENESS {
            self.fill_rect(dst, bounds, [0xff, 0xff, 0xff, 0xff]);
        } else if rop.0 == Rop3::DSTINVERT {
            if !r.is_empty() {
                let right: i32 = r.right();
                let bottom: i32 = r.bottom();
                let mut y: i32 = r.y;
                while y < bottom
                    invariant
                        self.wf(),
                        self@.width == base.width,
                        self@.height == base.height,
                        0 <= r.x,
                        0 <= r.y,
                        0 < r.w,
                        right == r.x + r.w <= base.width,
                        bottom == r.y + r.h <= base.height,
                        r.y <= y <= bottom,
                        forall|px: int, py: int| #[trigger]
                            (self@.at)(px, py) == (if r.y <= py < y && r.x <= px < right {
                                let c = (base.at)(px, py);
                                (!c.0, !c.1, !c.2, 0xffu8)
                            } else {
                                (base.at)(px, py)
                            }),
                    decreases bottom - y,
                {
                    self.invert_row(r.x, right, y);
                    y = y + 1;
                }
            }
            assert(self@.at =~= base.paint_in(dst, bounds, f).at);
            assert(self@ =~= base.rop(dst, bounds, rop));
        }
        r
    }

    /// Copy, into the pixels `x0..x1` of row `y`, the pixels `dx` to the right
    /// and `dy` down, walking so that no pixel is read after it was written.
    fn copy_row(&mut self, x0: i32, x1: i32, y: i32, dx: i64, dy: i64)
        requires
            old(self).wf(),
            0 <= x0 < x1 <= old(self)@.width,
            0 <= y < old(self)@.height,
            -0x1_0000_0000 <= dx <= 0x1_0000_0000,
            -0x1_0000_0000 <= dy <= 0x1_0000_0000,
        ensures
            final(self).wf(),
            final(self)@.width == old(self)@.width,
            final(self)@.height == old(self)@.height,
            forall|px: int, py: int| #[trigger]
                (final(self)@.at)(px, py) == (if py == y && x0 <= px < x1 && old(self)@.on(
                    px + dx,
                    py + dy,
                ) {
                    let c = (old(self)@.at)(px + dx, py + dy);
                    (c.0, c.1, c.2, 0xffu8)
                } else {
                    (old(self)@.at)(px, py)
                }),
    {
        let ghost base = self@;
        let reverse: bool = dx < 0;
        let mut n: i32 = 0;
        while n < x1 - x0
            invariant
                self.wf(),
                self@.width == base.width,
                self@.height == base.height,
                0 <= x0 < x1 <= base.width,
                0 <= y < base.height,
                0 <= n <= x1 - x0,
                reverse == (dx < 0),
                -0x1_0000_0000 <= dx <= 0x1_0000_0000,
                -0x1_0000_0000 <= dy <= 0x1_0000_0000,
                forall|px: int, py: int| #[trigger]
                    (self@.at)(px, py) == (if py == y && (if reverse {
                        x1 - n <= px < x1
                    } else {
                        x0 <= px < x0 + n
                    }) && base.on(px + dx, py + dy) {
                        let c = (base.at)(px + dx, py + dy);
                        (c.0, c.1, c.2, 0xffu8)
                    } else {
                        (base.at)(px, py)
                    }),
            decreases x1 - x0 - n,
        {
            let x: i32 = if reverse {
                x1 - 1 - n
            } else {
                x0 + n
            };
            let sx: i64 = x as i64 + dx;
            let sy: i64 = y as i64 + dy;
            if 0 <= sx && 0 <= sy && sx < self.width as i64 && sy < self.height as i64 {
                let c: [u8; 4] = self.get(sx as i32, sy as i32);
                assert(rgba(c) == (base.at)(x + dx, y + dy));
                self.put(x, y, c);
            }
            n = n + 1;
        }
    }

    /// Screen-to-screen copy (ScrBlt). Handles overlapping source/destination
    /// by choosing scan order. Only SRCCOPY semantics are implemented; other
    /// ROPs are treated as SRCCOPY.
    pub fn copy_rect(&mut self, dst: Rect, bounds: Option<Rect>, src_x: i32, src_y: i32) -> (r:
        Rect)
        requires
            old(self).wf(),
        ensures
            final(self).wf(),
            r == old(self)@.clip(dst, bounds),
            final(self)@ == old(self)@.copy(dst, bounds, src_x, src_y),
    {
        let r = self.clip(dst, bounds);
        let ghost base = self@;
        let ghost f = |x: int, y: int|
            {
                let sx = x - dst.x + src_x;
                let sy = y - dst.y + src_y;
                if base.on(sx, sy) {
                    Some((base.at)(sx, sy))
                } else {
                    None
                }
            };
        proof {
            lemma_clip(base, dst, bounds);
            lemma_paint_in(base, dst, bounds, f);
        }
        if r.is_empty() {
            assert(self@.at =~= base.paint_in(dst, bounds, f).at);
            assert(self@ =~= base.copy(dst, bounds, src_x, src_y));
            return r;
        }
        // Offset between dst and src, to map clipped dst pixels back to src.
        let dx: i64 = src_x as i64 - dst.x as i64;
        let dy: i64 = src_y as i64 - dst.y as i64;
        let right: i32 = r.right();
        let bottom: i32 = r.bottom();
        let reverse: bool = dy < 0;
        let mut n: i32 = 0;
        while n < r.h
            invariant
                self.wf(),
                self@.width == base.width,
                self@.height == base.height,
                0 <= r.x,
                0 <= r.y,
                0 < r.w,
                right == r.x + r.w <= base.width,
                bottom == r.y + r.h <= base.height,
                0 <= n <= r.h,
                reverse == (dy < 0),
                -0x1_0000_0000 <= dx <= 0x1_0000_0000,
                -0x1_0000_0000 <= dy <= 0x1_0000_0000,
                forall|px: int, py: int| #[trigger]
                    (self@.at)(px, py) == (if r.x <= px < right && (if reverse {
                        bottom - n <= py < bottom
                    } else {
                        r.y <= py < r.y + n
                    }) && base.on(px + dx, py + dy) {
                        let c = (base.at)(px + dx, py + dy);
                        (c.0, c.1, c.2, 0xffu8)
                    } else {
                        (base.at)(px, py)
                    }),
            decreases r.h - n,
        {
            let y: i32 = if reverse {
                bottom - 1 - n
            } else {
                r.y + n
            };
            let ghost before = self@;
            self.copy_row(r.x, right, y, dx, dy);
            assert forall|px: int, py: int| #[trigger] (self@.at)(px, py) == (if r.x <= px < right
                && (if reverse {
                bottom - (n + 1) <= py < bottom
            } else {
                r.y <= py < r.y + n + 1
            }) && base.on(px + dx, py + dy) {
                let c = (base.at)(px + dx, py + dy);
                (c.0, c.1, c.2, 0xffu8)
            } else {
                (base.at)(px, py)
            }) by {
                assert((before.at)(px, py) == (before.at)(px, py));
                assert((before.at)(px + dx, py + dy) == (before.at)(px + dx, py + dy));
            }
            n = n + 1;
        }
        assert forall|px: int, py: int| #[trigger] (self@.at)(px, py) == (base.paint_in(
            dst,
            bounds,
            f,
        ).at)(px, py) by {
            assert(px - dst.x + src_x == px + dx);
            assert(py - dst.y + src_y == py + dy);
        }
        assert(self@.at =~= base.paint_in(dst, bounds, f).at);
        assert(self@ =~= base.copy(dst, bounds, src_x, src_y));
        r
    }
}

} // verus!
