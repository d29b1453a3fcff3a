//! Primary drawing orders. Each order keeps persistent field state (the RDP
//! encoding omits unchanged fields), decodes only the present fields, then
//! renders into the canvas.

use crate::orders::cache::{BitmapCache, BitmapCacheView};
use crate::orders::canvas::{max, min, within, CanvasView, OrderCanvas, Rect};
use crate::orders::color::{rgba, Rgba};
use crate::orders::cursor::{Cursor, Reading};
use crate::orders::error::OrderError;
use crate::orders::header::{coord, field, present};
use crate::orders::rop::Rop3;
use vstd::prelude::*;

verus! {

/// DstBlt: a raster operation on the destination alone.
#[derive(Debug, Clone, Copy)]
pub struct DstBlt {
    pub x: i32,
    pub y: i32,
    pub w: i32,
    pub h: i32,
    pub rop: u8,
}

impl Default for DstBlt {
    fn default() -> (r: Self)
        ensures
            r == DstBlt::zero(),
    {
        DstBlt { x: 0, y: 0, w: 0, h: 0, rop: 0 }
    }
}

impl DstBlt {
    pub open spec fn zero() -> DstBlt {
        DstBlt { x: 0, y: 0, w: 0, h: 0, rop: 0 }
    }

    /// The fields after one order has been read.
    #[verifier::opaque]
    pub open spec fn decoded(self, d: Reading, ff: u32, delta: bool) -> (Reading, DstBlt) {
        let (d, x) = d.coord(ff, 0, delta, self.x);
        let (d, y) = d.coord(ff, 1, delta, self.y);
        let (d, w) = d.coord(ff, 2, delta, self.w);
        let (d, h) = d.coord(ff, 3, delta, self.h);
        let (d, rop) = d.field(ff, 4, self.rop);
        (d, DstBlt { x, y, w, h, rop })
    }

    pub fn decode(&mut self, c: &mut Cursor, ff: u32, delta: bool) -> (r: Result<(), OrderError>)
        requires
            old(c)@.live(),
        ensures
            final(c)@.live(),
            final(c)@ == (Reading { err: None, ..old(self).decoded(old(c)@, ff, delta).0 }),
            *final(self) == old(self).decoded(old(c)@, ff, delta).1,
            r == old(self).decoded(old(c)@, ff, delta).0.outcome(()),
    {
        proof {
            reveal(DstBlt::decoded);
        }
        coord(ff, 0, c, delta, &mut self.x)?;
        coord(ff, 1, c, delta, &mut self.y)?;
        coord(ff, 2, c, delta, &mut self.w)?;
        coord(ff, 3, c, delta, &mut self.h)?;
        field(ff, 4, &mut self.rop, c)?;
        Ok(())
    }

    pub open spec fn rect(self) -> Rect {
        Rect { x: self.x, y: self.y, w: self.w, h: self.h }
    }

    pub fn draw(&self, canvas: &mut OrderCanvas, clip: Option<Rect>) -> (r: Rect)
        requires
            old(canvas).wf(),
        ensures
            final(canvas).wf(),
            r == old(canvas)@.clip(self.rect(), clip),
            final(canvas)@ == old(canvas)@.rop(self.rect(), clip, Rop3(self.rop)),
    {
        canvas.dst_rop(Rect::from_ltwh(self.x, self.y, self.w, self.h), clip, Rop3(self.rop))
    }
}

impl Reading {
    /// The color of an OpaqueRect: red, green and blue are the fields 4, 5 and 6,
    /// and the color is opaque once all of them have been read.
    pub open spec fn color_bytes(self, ff: u32, old: [u8; 4]) -> (Reading, [u8; 4]) {
        let (d, red) = self.field(ff, 4, old[0]);
        let (d, green) = d.field(ff, 5, old[1]);
        let (d, blue) = d.field(ff, 6, old[2]);
        if self.ok() {
            (
                d,
                [
                    red,
                    green,
                    blue,
                    if d.ok() {
                        0xff
                    } else {
                        old[3]
                    },
                ],
            )
        } else {
            (self, old)
        }
    }
}

fn color_bytes(ff: u32, color: &mut [u8; 4], c: &mut Cursor) -> (r: Result<(), OrderError>)
    requires
        old(c)@.live(),
    ensures
        final(c)@.live(),
        final(c)@ == (Reading { err: None, ..old(c)@.color_bytes(ff, *old(color)).0 }),
        *final(color) == old(c)@.color_bytes(ff, *old(color)).1,
        r == old(c)@.color_bytes(ff, *old(color)).0.outcome(()),
{
    let mut red: u8 = color[0];
    let mut green: u8 = color[1];
    let mut blue: u8 = color[2];
    let mut r = field(ff, 4, &mut red, c);
    if r.is_ok() {
        r = field(ff, 5, &mut green, c);
    }
    if r.is_ok() {
        r = field(ff, 6, &mut blue, c);
    }
    let alpha: u8 = if r.is_ok() {
        0xff
    } else {
        color[3]
    };
    *color = [red, green, blue, alpha];
    r
}

/// OpaqueRect: a solid fill. The color is three independent 1-byte fields.
#[derive(Debug, Clone, Copy)]
pub struct OpaqueRect {
    pub x: i32,
    pub y: i32,
    pub w: i32,
    pub h: i32,
    pub color: [u8; 4],
}

impl Default for OpaqueRect {
    fn default() -> (r: Self)
        ensures
            r == OpaqueRect::zero(),
    {
        OpaqueRect { x: 0, y: 0, w: 0, h: 0, color: [0, 0, 0, 0] }
    }
}

impl OpaqueRect {
    pub open spec fn zero() -> OpaqueRect {
        OpaqueRect { x: 0, y: 0, w: 0, h: 0, color: [0, 0, 0, 0] }
    }

    /// The fields after one order has been read.
    #[verifier::opaque]
    pub open spec fn decoded(self, d: Reading, ff: u32, delta: bool) -> (Reading, OpaqueRect) {
        let (d, x) = d.coord(ff, 0, delta, self.x);
        let (d, y) = d.coord(ff, 1, delta, self.y);
        let (d, w) = d.coord(ff, 2, delta, self.w);
        let (d, h) = d.coord(ff, 3, delta, self.h);
        let (d, color) = d.color_bytes(ff, self.color);
        (d, OpaqueRect { x, y, w, h, color })
    }

    pub fn decode(&mut self, c: &mut Cursor, ff: u32, delta: bool) -> (r: Result<(), OrderError>)
        requires
            old(c)@.live(),
        ensures
            final(c)@.live(),
            final(c)@ == (Reading { err: None, ..old(self).decoded(old(c)@, ff, delta).0 }),
            *final(self) == old(self).decoded(old(c)@, ff, delta).1,
            r == old(self).decoded(old(c)@, ff, delta).0.outcome(()),
    {
        proof {
            reveal(OpaqueRect::decoded);
        }
        coord(ff, 0, c, delta, &mut self.x)?;
        coord(ff, 1, c, delta, &mut self.y)?;
        coord(ff, 2, c, delta, &mut self.w)?;
        coord(ff, 3, c, delta, &mut self.h)?;
        color_bytes(ff, &mut self.color, c)?;
        Ok(())
    }

    pub open spec fn rect(self) -> Rect {
        Rect { x: self.x, y: self.y, w: self.w, h: self.h }
    }

    pub fn draw(&self, canvas: &mut OrderCanvas, clip: Option<Rect>) -> (r: Rect)
        requires
            old(canvas).wf(),
        ensures
            final(canvas).wf(),
            r == old(canvas)@.clip(self.rect(), clip),
            final(canvas)@ == old(canvas)@.fill(self.rect(), clip, rgba(self.color)),
    {
        canvas.fill_rect(Rect::from_ltwh(self.x, self.y, self.w, self.h), clip, self.color)
    }
}

/// ScrBlt: a screen-to-screen copy.
#[derive(Debug, Clone, Copy)]
pub struct ScrBlt {
    pub x: i32,
    pub y: i32,
    pub w: i32,
    pub h: i32,
    pub rop: u8,
    pub x_src: i32,
    pub y_src: i32,
}

impl Default for ScrBlt {
    fn default() -> (r: Self)
        ensures
            r == ScrBlt::zero(),
    {
        ScrBlt { x: 0, y: 0, w: 0, h: 0, rop: 0, x_src: 0, y_src: 0 }
    }
}

impl ScrBlt {
    pub open spec fn zero() -> ScrBlt {
        ScrBlt { x: 0, y: 0, w: 0, h: 0, rop: 0, x_src: 0, y_src: 0 }
    }

    /// The fields after one order has been read.
    #[verifier::opaque]
    pub open spec fn decoded(self, d: Reading, ff: u32, delta: bool) -> (Reading, ScrBlt) {
        let (d, x) = d.coord(ff, 0, delta, self.x);
        let (d, y) = d.coord(ff, 1, delta, self.y);
        let (d, w) = d.coord(ff, 2, delta, self.w);
        let (d, h) = d.coord(ff, 3, delta, self.h);
        let (d, rop) = d.field(ff, 4, self.rop);
        let (d, x_src) = d.coord(ff, 5, delta, self.x_src);
        let (d, y_src) = d.coord(ff, 6, delta, self.y_src);
        (d, ScrBlt { x, y, w, h, rop, x_src, y_src })
    }

    pub fn decode(&mut self, c: &mut Cursor, ff: u32, delta: bool) -> (r: Result<(), OrderError>)
        requires
            old(c)@.live(),
        ensures
            final(c)@.live(),
            final(c)@ == (Reading { err: None, ..old(self).decoded(old(c)@, ff, delta).0 }),
            *final(self) == old(self).decoded(old(c)@, ff, delta).1,
            r == old(self).decoded(old(c)@, ff, delta).0.outcome(()),
    {
        proof {
            reveal(ScrBlt::decoded);
        }
        coord(ff, 0, c, delta, &mut self.x)?;
        coord(ff, 1, c, delta, &mut self.y)?;
        coord(ff, 2, c, delta, &mut self.w)?;
        coord(ff, 3, c, delta, &mut self.h)?;
        field(ff, 4, &mut self.rop, c)?;
        coord(ff, 5, c, delta, &mut self.x_src)?;
        coord(ff, 6, c, delta, &mut self.y_src)?;
        Ok(())
    }

    pub open spec fn rect(self) -> Rect {
        Rect { x: self.x, y: self.y, w: self.w, h: self.h }
    }

    pub fn draw(&self, canvas: &mut OrderCanvas, clip: Option<Rect>) -> (r: Rect)
        requires
            old(canvas).wf(),
        ensures
            final(canvas).wf(),
            r == old(canvas)@.clip(self.rect(), clip),
            final(canvas)@ == old(canvas)@.copy(self.rect(), clip, self.x_src, self.y_src),
    {
        canvas.copy_rect(
            Rect::from_ltwh(self.x, self.y, self.w, self.h),
            clip,
            self.x_src,
            self.y_src,
        )
    }
}

/// MemBlt: a blit of a cached bitmap.
#[derive(Debug, Clone, Copy)]
pub struct MemBlt {
    pub cache_id: u16,
    pub x: i32,
    pub y: i32,
    pub w: i32,
    pub h: i32,
    pub rop: u8,
    pub x_src: i32,
    pub y_src: i32,
    pub cache_index: u16,
}

impl Default for MemBlt {
    fn default() -> (r: Self)
        ensures
            r == MemBlt::zero(),
    {
        MemBlt { cache_id: 0, x: 0, y: 0, w: 0, h: 0, rop: 0, x_src: 0, y_src: 0, cache_index: 0 }
    }
}

impl MemBlt {
    pub open spec fn zero() -> MemBlt {
        MemBlt { cache_id: 0, x: 0, y: 0, w: 0, h: 0, rop: 0, x_src: 0, y_src: 0, cache_index: 0 }
    }

    /// The fields after one order has been read.
    #[verifier::opaque]
    pub open spec fn decoded(self, d: Reading, ff: u32, delta: bool) -> (Reading, MemBlt) {
        let (d, cache_id) = d.field(ff, 0, self.cache_id);
        let (d, x) = d.coord(ff, 1, delta, self.x);
        let (d, y) = d.coord(ff, 2, delta, self.y);
        let (d, w) = d.coord(ff, 3, delta, self.w);
        let (d, h) = d.coord(ff, 4, delta, self.h);
        let (d, rop) = d.field(ff, 5, self.rop);
        let (d, x_src) = d.coord(ff, 6, delta, self.x_src);
        let (d, y_src) = d.coord(ff, 7, delta, self.y_src);
        let (d, cache_index) = d.field(ff, 8, self.cache_index);
        (d, MemBlt { cache_id, x, y, w, h, rop, x_src, y_src, cache_index })
    }

    pub fn decode(&mut self, c: &mut Cursor, ff: u32, delta: bool) -> (r: Result<(), OrderError>)
        requires
            old(c)@.live(),
        ensures
            final(c)@.live(),
            final(c)@ == (Reading { err: None, ..old(self).decoded(old(c)@, ff, delta).0 }),
            *final(self) == old(self).decoded(old(c)@, ff, delta).1,
            r == old(self).decoded(old(c)@, ff, delta).0.outcome(()),
    {
        proof {
            reveal(MemBlt::decoded);
        }
        field(ff, 0, &mut self.cache_id, c)?;
        coord(ff, 1, c, delta, &mut self.x)?;
        coord(ff, 2, c, delta, &mut self.y)?;
        coord(ff, 3, c, delta, &mut self.w)?;
        coord(ff, 4, c, delta, &mut self.h)?;
        field(ff, 5, &mut self.rop, c)?;
        coord(ff, 6, c, delta, &mut self.x_src)?;
        coord(ff, 7, c, delta, &mut self.y_src)?;
        field(ff, 8, &mut self.cache_index, c)?;
        Ok(())
    }

    pub open spec fn rect(self) -> Rect {
        Rect { x: self.x, y: self.y, w: self.w, h: self.h }
    }

    /// The bitmap cache this MemBlt reads from (low byte of cacheId).
    pub fn cache(&self) -> (r: usize)
        ensures
            r == self.cache_id % 256,
    {
        (self.cache_id % 256) as usize
    }

    /// The cached bitmap this MemBlt names.
    pub open spec fn source(self, cache: BitmapCacheView) -> Option<crate::orders::canvas::BitmapView> {
        cache.get(self.cache_id as int % 256, self.cache_index as int)
    }

    /// Blit the cached bitmap; without one nothing is drawn.
    pub fn draw(&self, canvas: &mut OrderCanvas, clip: Option<Rect>, cache: &BitmapCache) -> (r:
        Rect)
        requires
            old(canvas).wf(),
            cache@.wf(),
        ensures
            final(canvas).wf(),
            match self.source(cache@) {
                Some(b) => r == old(canvas)@.clip(self.rect(), clip) && final(canvas)@ == old(
                    canvas,
                )@.blit(self.rect(), clip, b, self.x_src, self.y_src),
                None => r == (Rect { x: 0, y: 0, w: 0, h: 0 }) && final(canvas)@ == old(canvas)@,
            },
    {
        match cache.get(self.cache(), self.cache_index as usize) {
            Some(bitmap) => canvas.blit_bitmap(
                Rect::from_ltwh(self.x, self.y, self.w, self.h),
                clip,
                bitmap,
                self.x_src,
                self.y_src,
            ),
            None => Rect::new(0, 0, 0, 0),
        }
    }
}

/// PatBlt: a pattern fill.
#[derive(Debug, Clone, Copy)]
pub struct PatBlt {
    pub x: i32,
    pub y: i32,
    pub w: i32,
    pub h: i32,
    pub rop: u8,
    pub back_color: [u8; 4],
    pub fore_color: [u8; 4],
    pub brush_org_x: i32,
    pub brush_org_y: i32,
    pub brush_style: u8,
    pub brush_hatch: u8,
}

impl Default for PatBlt {
    fn default() -> (r: Self)
        ensures
            r == PatBlt::zero(),
    {
        PatBlt {
            x: 0,
            y: 0,
            w: 0,
            h: 0,
            rop: 0,
            back_color: [0, 0, 0, 0],
            fore_color: [0, 0, 0, 0],
            brush_org_x: 0,
            brush_org_y: 0,
            brush_style: 0,
            brush_hatch: 0,
        }
    }
}

impl PatBlt {
    pub open spec fn zero() -> PatBlt {
        PatBlt {
            x: 0,
            y: 0,
            w: 0,
            h: 0,
            rop: 0,
            back_color: [0, 0, 0, 0],
            fore_color: [0, 0, 0, 0],
            brush_org_x: 0,
            brush_org_y: 0,
            brush_style: 0,
            brush_hatch: 0,
        }
    }

    /// The fields after one order has been read.
    #[verifier::opaque]
    pub open spec fn decoded(self, d: Reading, ff: u32, delta: bool) -> (Reading, PatBlt) {
        let (d, x) = d.coord(ff, 0, delta, self.x);
        let (d, y) = d.coord(ff, 1, delta, self.y);
        let (d, w) = d.coord(ff, 2, delta, self.w);
        let (d, h) = d.coord(ff, 3, delta, self.h);
        let (d, rop) = d.field(ff, 4, self.rop);
        let (d, back_color) = d.field(ff, 5, self.back_color);
        let (d, fore_color) = d.field(ff, 6, self.fore_color);
        let (d, brush_org_x) = d.field(ff, 7, self.brush_org_x);
        let (d, brush_org_y) = d.field(ff, 8, self.brush_org_y);
        let (d, brush_style) = d.field(ff, 9, self.brush_style);
        let (d, brush_hatch) = d.field(ff, 10, self.brush_hatch);
        let d = if present(ff, 11) {
            d.skip(7)
        } else {
            d
        };
        (
            d,
            PatBlt {
                x,
                y,
                w,
                h,
                rop,
                back_color,
                fore_color,
                brush_org_x,
                brush_org_y,
                brush_style,
                brush_hatch,
            },
        )
    }

    pub fn decode(&mut self, c: &mut Cursor, ff: u32, delta: bool) -> (r: Result<(), OrderError>)
        requires
            old(c)@.live(),
        ensures
            final(c)@.live(),
            final(c)@ == (Reading { err: None, ..old(self).decoded(old(c)@, ff, delta).0 }),
            *final(self) == old(self).decoded(old(c)@, ff, delta).1,
            r == old(self).decoded(old(c)@, ff, delta).0.outcome(()),
    {
        proof {
            reveal(PatBlt::decoded);
        }
        coord(ff, 0, c, delta, &mut self.x)?;
        coord(ff, 1, c, delta, &mut self.y)?;
        coord(ff, 2, c, delta, &mut self.w)?;
        coord(ff, 3, c, delta, &mut self.h)?;
        field(ff, 4, &mut self.rop, c)?;
        field(ff, 5, &mut self.back_color, c)?;
        field(ff, 6, &mut self.fore_color, c)?;
        field(ff, 7, &mut self.brush_org_x, c)?;
        field(ff, 8, &mut self.brush_org_y, c)?;
        field(ff, 9, &mut self.brush_style, c)?;
        field(ff, 10, &mut self.brush_hatch, c)?;
        if ff & (1u32 << 11) != 0 {
            c.skip(7)?;
        }
        Ok(())
    }

    pub open spec fn rect(self) -> Rect {
        Rect { x: self.x, y: self.y, w: self.w, h: self.h }
    }

    /// The color that the raster operation fills with: black, white, or else
    /// the foreground (the brush is taken as solid).
    pub open spec fn fill_color(self) -> Rgba {
        if self.rop == Rop3::BLACKNESS {
            (0u8, 0u8, 0u8, 0xffu8)
        } else if self.rop == Rop3::WHITENESS {
            (0xffu8, 0xffu8, 0xffu8, 0xffu8)
        } else {
            rgba(self.fore_color)
        }
    }

    pub fn draw(&self, canvas: &mut OrderCanvas, clip: Option<Rect>) -> (r: Rect)
        requires
            old(canvas).wf(),
        ensures
            final(canvas).wf(),
            r == old(canvas)@.clip(self.rect(), clip),
            final(canvas)@ == old(canvas)@.fill(self.rect(), clip, self.fill_color()),
    {
        let rect = Rect::from_ltwh(self.x, self.y, self.w, self.h);
        if self.rop == Rop3::BLACKNESS {
            canvas.fill_rect(rect, clip, [0, 0, 0, 0xff])
        } else if self.rop == Rop3::WHITENESS {
            canvas.fill_rect(rect, clip, [0xff, 0xff, 0xff, 0xff])
        } else {
            canvas.fill_rect(rect, clip, self.fore_color)
        }
    }
}

/// LineTo: a line of single pixels.
#[derive(Debug, Clone, Copy)]
pub struct LineTo {
    pub back_mode: u16,
    pub x_start: i32,
    pub y_start: i32,
    pub x_end: i32,
    pub y_end: i32,
    pub back_color: [u8; 4],
    pub rop2: u8,
    pub pen_style: u8,
    pub pen_width: u8,
    pub pen_color: [u8; 4],
}

impl Default for LineTo {
    fn default() -> (r: Self)
        ensures
            r == LineTo::zero(),
    {
        LineTo {
            back_mode: 0,
            x_start: 0,
            y_start: 0,
            x_end: 0,
            y_end: 0,
            back_color: [0, 0, 0, 0],
            rop2: 0,
            pen_style: 0,
            pen_width: 0,
            pen_color: [0, 0, 0, 0],
        }
    }
}

impl LineTo {
    pub open spec fn zero() -> LineTo {
        LineTo {
            back_mode: 0,
            x_start: 0,
            y_start: 0,
            x_end: 0,
            y_end: 0,
            back_color: [0, 0, 0, 0],
            rop2: 0,
            pen_style: 0,
            pen_width: 0,
            pen_color: [0, 0, 0, 0],
        }
    }

    /// The fields after one order has been read.
    #[verifier::opaque]
    pub open spec fn decoded(self, d: Reading, ff: u32, delta: bool) -> (Reading, LineTo) {
        let (d, back_mode) = d.field(ff, 0, self.back_mode);
        let (d, x_start) = d.coord(ff, 1, delta, self.x_start);
        let (d, y_start) = d.coord(ff, 2, delta, self.y_start);
        let (d, x_end) = d.coord(ff, 3, delta, self.x_end);
        let (d, y_end) = d.coord(ff, 4, delta, self.y_end);
        let (d, back_color) = d.field(ff, 5, self.back_color);
        let (d, rop2) = d.field(ff, 6, self.rop2);
        let (d, pen_style) = d.field(ff, 7, self.pen_style);
        let (d, pen_width) = d.field(ff, 8, self.pen_width);
        let (d, pen_color) = d.field(ff, 9, self.pen_color);
        (
            d,
            LineTo {
                back_mode,
                x_start,
                y_start,
                x_end,
                y_end,
                back_color,
                rop2,
                pen_style,
                pen_width,
                pen_color,
            },
        )
    }

    pub fn decode(&mut self, c: &mut Cursor, ff: u32, delta: bool) -> (r: Result<(), OrderError>)
        requires
            old(c)@.live(),
        ensures
            final(c)@.live(),
            final(c)@ == (Reading { err: None, ..old(self).decoded(old(c)@, ff, delta).0 }),
            *final(self) == old(self).decoded(old(c)@, ff, delta).1,
            r == old(self).decoded(old(c)@, ff, delta).0.outcome(()),
    {
        proof {
            reveal(LineTo::decoded);
        }
        field(ff, 0, &mut self.back_mode, c)?;
        coord(ff, 1, c, delta, &mut self.x_start)?;
        coord(ff, 2, c, delta, &mut self.y_start)?;
        coord(ff, 3, c, delta, &mut self.x_end)?;
        coord(ff, 4, c, delta, &mut self.y_end)?;
        field(ff, 5, &mut self.back_color, c)?;
        field(ff, 6, &mut self.rop2, c)?;
        field(ff, 7, &mut self.pen_style, c)?;
        field(ff, 8, &mut self.pen_width, c)?;
        field(ff, 9, &mut self.pen_color, c)?;
        Ok(())
    }

    pub open spec fn line(self) -> Line {
        Line::between(
            self.x_start as int,
            self.y_start as int,
            self.x_end as int,
            self.y_end as int,
        )
    }

    pub fn draw(&self, canvas: &mut OrderCanvas, clip: Option<Rect>) -> (r: Rect)
        requires
            old(canvas).wf(),
        ensures
            final(canvas).wf(),
            r == self.line().touched(old(canvas)@, clip),
            self.line().frames(old(canvas)@, clip, r),
            final(canvas)@ == self.line().drawn(old(canvas)@, clip, rgba(self.pen_color)),
    {
        proof {
            law_line_box_is_smallest(self.line(), canvas@, clip);
        }
        draw_line(
            canvas,
            clip,
            self.x_start,
            self.y_start,
            self.x_end,
            self.y_end,
            self.pen_color,
        )
    }
}

/// A line on the pixel grid, walked one pixel at a time (Bresenham): after `a`
/// steps along x and `b` steps along y.
#[verifier::ext_equal]
pub struct Line {
    pub x0: int,
    pub y0: int,
    pub x1: int,
    pub y1: int,
    pub a: int,
    pub b: int,
}

impl Line {
    /// The line from `(x0, y0)` to `(x1, y1)` at its start.
    pub open spec fn between(x0: int, y0: int, x1: int, y1: int) -> Line {
        Line { x0, y0, x1, y1, a: 0, b: 0 }
    }

    /// Steps along x in all.
    pub open spec fn dx(self) -> int {
        if self.x0 < self.x1 {
            self.x1 - self.x0
        } else {
            self.x0 - self.x1
        }
    }

    /// Steps along y in all.
    pub open spec fn dy(self) -> int {
        if self.y0 < self.y1 {
            self.y1 - self.y0
        } else {
            self.y0 - self.y1
        }
    }

    pub open spec fn x(self) -> int {
        if self.x0 < self.x1 {
            self.x0 + self.a
        } else {
            self.x0 - self.a
        }
    }

    pub open spec fn y(self) -> int {
        if self.y0 < self.y1 {
            self.y0 + self.b
        } else {
            self.y0 - self.b
        }
    }

    /// The error term: how far the walk is from the true line.
    pub open spec fn err(self) -> int {
        (self.b + 1) * self.dx() - (self.a + 1) * self.dy()
    }

    pub open spec fn at_end(self) -> bool {
        self.x() == self.x1 && self.y() == self.y1
    }

    pub open spec fn on_way(self) -> bool {
        0 <= self.a <= self.dx() && 0 <= self.b <= self.dy()
    }

    pub open spec fn steps_left(self) -> int {
        (self.dx() - self.a) + (self.dy() - self.b)
    }

    pub open spec fn next(self) -> Line {
        Line {
            a: if 2 * self.err() >= -self.dy() {
                self.a + 1
            } else {
                self.a
            },
            b: if 2 * self.err() <= self.dx() {
                self.b + 1
            } else {
                self.b
            },
            ..self
        }
    }

    /// The canvas after the pixels from here to the end have been painted.
    pub open spec fn drawn(self, canvas: CanvasView, clip: Option<Rect>, color: Rgba) -> CanvasView
        decreases self.steps_left(),
    {
        let dot = canvas.fill(
            Rect { x: self.x() as i32, y: self.y() as i32, w: 1, h: 1 },
            clip,
            color,
        );
        if self.at_end() || !self.on_way() {
            dot
        } else {
            proof {
                lemma_line_step(self);
            }
            self.next().drawn(dot, clip, color)
        }
    }

    /// Whether the walk from here to the end comes to the pixel `(x, y)`.
    pub open spec fn passes(self, x: int, y: int) -> bool
        decreases self.steps_left(),
    {
        ||| self.x() == x && self.y() == y
        ||| self.on_way() && !self.at_end() && {
            proof {
                lemma_line_step(self);
            }
            self.next().passes(x, y)
        }
    }

    /// Whether the walk paints the pixel: it comes to it, and the canvas and the clip
    /// let it through.
    pub open spec fn paints(self, canvas: CanvasView, clip: Option<Rect>, x: int, y: int) -> bool {
        self.passes(x, y) && canvas.on(x, y) && within(clip, x, y)
    }

    /// Whether `r` is the smallest box around the pixels that the walk paints: it holds
    /// them all, each of its edges holds one, and it is empty if there is none.
    pub open spec fn frames(self, canvas: CanvasView, clip: Option<Rect>, r: Rect) -> bool {
        &&& forall|x: int, y: int| #[trigger]
            self.paints(canvas, clip, x, y) ==> !r.empty() && r.contains(x, y)
        &&& !r.empty() ==> self.meets_edges(canvas, clip, r)
    }

    /// Whether each edge of `r` holds a pixel that the walk paints.
    pub open spec fn meets_edges(self, canvas: CanvasView, clip: Option<Rect>, r: Rect) -> bool {
        &&& exists|y: int| #[trigger] self.paints(canvas, clip, r.x as int, y)
        &&& exists|y: int| #[trigger] self.paints(canvas, clip, r.x + r.w - 1, y)
        &&& exists|x: int| #[trigger] self.paints(canvas, clip, x, r.y as int)
        &&& exists|x: int| #[trigger] self.paints(canvas, clip, x, r.y + r.h - 1)
    }

    /// The box `sofar`, grown around the pixels that the walk paints from here on.
    pub open spec fn touched_with(
        self,
        canvas: CanvasView,
        clip: Option<Rect>,
        sofar: Rect,
    ) -> Rect
        decreases self.steps_left(),
    {
        let dot = Rect { x: self.x() as i32, y: self.y() as i32, w: 1, h: 1 };
        let now = if canvas.on(self.x(), self.y()) && within(clip, self.x(), self.y()) {
            sofar.join(dot)
        } else {
            sofar
        };
        if self.at_end() || !self.on_way() {
            now
        } else {
            proof {
                lemma_line_step(self);
            }
            self.next().touched_with(canvas, clip, now)
        }
    }

    /// The box around the pixels that the walk paints.
    pub open spec fn touched(self, canvas: CanvasView, clip: Option<Rect>) -> Rect {
        self.touched_with(canvas, clip, Rect { x: 0, y: 0, w: 0, h: 0 })
    }
}

/// A step of the walk gets closer to the end and never overshoots it.
pub proof fn lemma_line_step(l: Line)
    requires
        l.on_way(),
        !l.at_end(),
    ensures
        l.next().on_way(),
        l.next().steps_left() < l.steps_left(),
        l.next().dx() == l.dx(),
        l.next().dy() == l.dy(),
        l.next().err() == l.err() - (if 2 * l.err() >= -l.dy() {
            l.dy()
        } else {
            0
        }) + (if 2 * l.err() <= l.dx() {
            l.dx()
        } else {
            0
        }),
{
    let (a, b, dx, dy) = (l.a, l.b, l.dx(), l.dy());
    assert(a == dx && b < dy ==> 2 * ((b + 1) * dx - (a + 1) * dy) < -dy) by (nonlinear_arith)
        requires
            0 <= a <= dx,
            0 <= b <= dy,
    ;
    assert(b == dy && a < dx ==> 2 * ((b + 1) * dx - (a + 1) * dy) > dx) by (nonlinear_arith)
        requires
            0 <= a <= dx,
            0 <= b <= dy,
    ;
    assert(l.a < l.dx() || l.b < l.dy());
    assert((a + 2) * dy == (a + 1) * dy + dy) by (nonlinear_arith);
    assert((b + 2) * dx == (b + 1) * dx + dx) by (nonlinear_arith);
}

/// A line leaves every pixel outside the box around its end points alone, and
/// keeps the canvas size.
pub proof fn law_line_stays_in_box(l: Line, canvas: CanvasView, clip: Option<Rect>, color: Rgba)
    requires
        l.on_way(),
        i32::MIN <= l.x0 <= i32::MAX,
        i32::MIN <= l.x1 <= i32::MAX,
        i32::MIN <= l.y0 <= i32::MAX,
        i32::MIN <= l.y1 <= i32::MAX,
    ensures
        l.drawn(canvas, clip, color).width == canvas.width,
        l.drawn(canvas, clip, color).height == canvas.height,
        forall|x: int, y: int|
            !(min(l.x0, l.x1) <= x <= max(l.x0, l.x1) && min(l.y0, l.y1) <= y <= max(l.y0, l.y1))
                ==> #[trigger] (l.drawn(canvas, clip, color).at)(x, y) == (canvas.at)(x, y),
    decreases l.steps_left(),
{
    let dot = canvas.fill(Rect { x: l.x() as i32, y: l.y() as i32, w: 1, h: 1 }, clip, color);
    assert forall|x: int, y: int|
        !(min(l.x0, l.x1) <= x <= max(l.x0, l.x1) && min(l.y0, l.y1) <= y <= max(l.y0, l.y1))
            implies #[trigger] (dot.at)(x, y) == (canvas.at)(x, y) by {}
    if !l.at_end() {
        lemma_line_step(l);
        law_line_stays_in_box(l.next(), dot, clip, color);
    }
}

/// A line paints exactly the pixels that its walk comes to and that the canvas and the
/// clip let through.
pub proof fn law_line_paints_its_pixels(
    l: Line,
    canvas: CanvasView,
    clip: Option<Rect>,
    color: Rgba,
)
    requires
        l.on_way(),
        i32::MIN <= l.x0 <= i32::MAX,
        i32::MIN <= l.x1 <= i32::MAX,
        i32::MIN <= l.y0 <= i32::MAX,
        i32::MIN <= l.y1 <= i32::MAX,
    ensures
        l.drawn(canvas, clip, color).width == canvas.width,
        l.drawn(canvas, clip, color).height == canvas.height,
        forall|x: int, y: int| #[trigger]
            (l.drawn(canvas, clip, color).at)(x, y) == (if l.paints(canvas, clip, x, y) {
                (color.0, color.1, color.2, 0xffu8)
            } else {
                (canvas.at)(x, y)
            }),
    decreases l.steps_left(),
{
    let dot = canvas.fill(Rect { x: l.x() as i32, y: l.y() as i32, w: 1, h: 1 }, clip, color);
    let after = l.drawn(canvas, clip, color);
    if !l.at_end() {
        lemma_line_step(l);
        law_line_paints_its_pixels(l.next(), dot, clip, color);
    }
    assert forall|x: int, y: int| #[trigger] (after.at)(x, y) == (if l.paints(canvas, clip, x, y) {
        (color.0, color.1, color.2, 0xffu8)
    } else {
        (canvas.at)(x, y)
    }) by {
        if !l.at_end() {
            assert(after == l.next().drawn(dot, clip, color));
            assert(l.next().paints(dot, clip, x, y) == (l.next().passes(x, y) && canvas.on(x, y)
                && within(clip, x, y)));
        }
    }
}

/// The box that a line reports is the smallest around the pixels that it paints.
pub proof fn law_line_box_is_smallest(l: Line, canvas: CanvasView, clip: Option<Rect>)
    requires
        l.on_way(),
        i32::MIN <= l.x0 <= i32::MAX,
        i32::MIN <= l.x1 <= i32::MAX,
        i32::MIN <= l.y0 <= i32::MAX,
        i32::MIN <= l.y1 <= i32::MAX,
    ensures
        l.frames(canvas, clip, l.touched(canvas, clip)),
        l.touched(canvas, clip).empty() || l.touched(canvas, clip).on_canvas(canvas),
{
    lemma_touched(l, l, canvas, clip, Rect { x: 0, y: 0, w: 0, h: 0 });
}

/// What holds of the box so far holds of the box in the end: it lies on the canvas, and
/// each of its edges is met by the whole line. The rest of the line is in it too.
proof fn lemma_touched(
    whole: Line,
    l: Line,
    canvas: CanvasView,
    clip: Option<Rect>,
    sofar: Rect,
)
    requires
        l.on_way(),
        i32::MIN <= l.x0 <= i32::MAX,
        i32::MIN <= l.x1 <= i32::MAX,
        i32::MIN <= l.y0 <= i32::MAX,
        i32::MIN <= l.y1 <= i32::MAX,
        forall|x: int, y: int| #[trigger] l.passes(x, y) ==> whole.passes(x, y),
        sofar.empty() || (sofar.on_canvas(canvas) && whole.meets_edges(canvas, clip, sofar)),
    ensures
        ({
            let r = l.touched_with(canvas, clip, sofar);
            &&& r.empty() || (r.on_canvas(canvas) && whole.meets_edges(canvas, clip, r))
            &&& forall|x: int, y: int| #[trigger]
                l.paints(canvas, clip, x, y) ==> !r.empty() && r.contains(x, y)
            &&& !sofar.empty() ==> !r.empty() && r.x <= sofar.x && r.y <= sofar.y && sofar.x
                + sofar.w <= r.x + r.w && sofar.y + sofar.h <= r.y + r.h
        }),
    decreases l.steps_left(),
{
    let (x, y) = (l.x(), l.y());
    let dot = Rect { x: x as i32, y: y as i32, w: 1, h: 1 };
    let here = canvas.on(x, y) && within(clip, x, y);
    let now = if here {
        sofar.join(dot)
    } else {
        sofar
    };
    assert(l.passes(x, y));
    if here {
        assert(whole.paints(canvas, clip, x, y));
        lemma_join_edges(whole, canvas, clip, sofar, x as i32, y as i32);
    }
    if !l.at_end() {
        lemma_line_step(l);
        assert forall|px: int, py: int| #[trigger] l.next().passes(px, py) implies whole.passes(
            px,
            py,
        ) by {
            assert(l.passes(px, py));
        }
        lemma_touched(whole, l.next(), canvas, clip, now);
        let r = l.touched_with(canvas, clip, sofar);
        assert forall|px: int, py: int| #[trigger] l.paints(canvas, clip, px, py) implies !r.empty()
            && r.contains(px, py) by {
            if l.next().passes(px, py) {
                assert(l.next().paints(canvas, clip, px, py));
            }
        }
    }
}

/// A box that is joined with a painted pixel still has a painted pixel at each edge.
proof fn lemma_join_edges(
    l: Line,
    canvas: CanvasView,
    clip: Option<Rect>,
    r: Rect,
    x: i32,
    y: i32,
)
    requires
        l.paints(canvas, clip, x as int, y as int),
        r.empty() || (r.on_canvas(canvas) && l.meets_edges(canvas, clip, r)),
    ensures
        ({
            let j = r.join(Rect { x, y, w: 1, h: 1 });
            &&& !j.empty()
            &&& j.on_canvas(canvas)
            &&& l.meets_edges(canvas, clip, j)
            &&& j.contains(x as int, y as int)
            &&& !r.empty() ==> j.x <= r.x && j.y <= r.y && r.x + r.w <= j.x + j.w && r.y + r.h
                <= j.y + j.h
        }),
{
    let j = r.join(Rect { x, y, w: 1, h: 1 });
    if r.empty() {
        assert(l.paints(canvas, clip, j.x + j.w - 1, y as int));
        assert(l.paints(canvas, clip, x as int, j.y + j.h - 1));
    } else {
        assert(j.x == x || j.x == r.x);
        assert(j.y == y || j.y == r.y);
        assert(j.x + j.w - 1 == x || j.x + j.w == r.x + r.w);
        assert(j.y + j.h - 1 == y || j.y + j.h == r.y + r.h);
    }
}

/// Both end points of a line are painted where the canvas and the clip let them.
pub proof fn law_line_paints_ends(l: Line, canvas: CanvasView, clip: Option<Rect>, color: Rgba)
    requires
        l.on_way(),
        i32::MIN <= l.x0 <= i32::MAX,
        i32::MIN <= l.x1 <= i32::MAX,
        i32::MIN <= l.y0 <= i32::MAX,
        i32::MIN <= l.y1 <= i32::MAX,
    ensures
        canvas.on(l.x(), l.y()) && within(clip, l.x(), l.y()) ==> (l.drawn(
            canvas,
            clip,
            color,
        ).at)(l.x(), l.y()) == (color.0, color.1, color.2, 0xffu8),
        canvas.on(l.x1, l.y1) && within(clip, l.x1, l.y1) ==> (l.drawn(
            canvas,
            clip,
            color,
        ).at)(l.x1, l.y1) == (color.0, color.1, color.2, 0xffu8),
    decreases l.steps_left(),
{
    let dot = canvas.fill(Rect { x: l.x() as i32, y: l.y() as i32, w: 1, h: 1 }, clip, color);
    if !l.at_end() {
        lemma_line_step(l);
        law_line_paints_ends(l.next(), dot, clip, color);
        lemma_line_keeps_color(l.next(), dot, clip, color, l.x(), l.y());
    }
}

/// A single pixel is cut away altogether or stays as it is.
proof fn lemma_dot(canvas: CanvasView, clip: Option<Rect>, x: i32, y: i32)
    ensures
        ({
            let dot = Rect { x, y, w: 1, h: 1 };
            if canvas.on(x as int, y as int) && within(clip, x as int, y as int) {
                canvas.clip(dot, clip) == dot
            } else {
                canvas.clip(dot, clip).empty()
            }
        }),
{
}

proof fn lemma_line_keeps_color(
    l: Line,
    canvas: CanvasView,
    clip: Option<Rect>,
    color: Rgba,
    x: int,
    y: int,
)
    requires
        l.on_way(),
    ensures
        (canvas.at)(x, y) == (color.0, color.1, color.2, 0xffu8) ==> (l.drawn(
            canvas,
            clip,
            color,
        ).at)(x, y) == (color.0, color.1, color.2, 0xffu8),
    decreases l.steps_left(),
{
    let dot = canvas.fill(Rect { x: l.x() as i32, y: l.y() as i32, w: 1, h: 1 }, clip, color);
    if !l.at_end() {
        lemma_line_step(l);
        lemma_line_keeps_color(l.next(), dot, clip, color, x, y);
    }
}

/// Bresenham line, clipped per-pixel to the canvas and bounds. Returns the smallest box
/// around the pixels that were painted.
fn draw_line(
    canvas: &mut OrderCanvas,
    clip: Option<Rect>,
    x0: i32,
    y0: i32,
    x1: i32,
    y1: i32,
    color: [u8; 4],
) -> (r: Rect)
    requires
        old(canvas).wf(),
    ensures
        final(canvas).wf(),
        r == Line::between(x0 as int, y0 as int, x1 as int, y1 as int).touched(
            old(canvas)@,
            clip,
        ),
        final(canvas)@ == Line::between(x0 as int, y0 as int, x1 as int, y1 as int).drawn(
            old(canvas)@,
            clip,
            rgba(color),
        ),
{
    let (left, right) = if x0 <= x1 {
        (x0, x1)
    } else {
        (x1, x0)
    };
    let (top, bottom) = if y0 <= y1 {
        (y0, y1)
    } else {
        (y1, y0)
    };
    let mut dirty = Rect::new(0, 0, 0, 0);
    let ghost start = Line::between(x0 as int, y0 as int, x1 as int, y1 as int);
    let ghost mut l = start;
    let dx: i64 = right as i64 - left as i64;
    let dy: i64 = top as i64 - bottom as i64;
    let mut err: i64 = dx + dy;
    let mut x: i32 = x0;
    let mut y: i32 = y0;
    proof {
        assert(start.err() == start.dx() - start.dy()) by {
            assert((0 + 1) * start.dx() == start.dx() && (0 + 1) * start.dy() == start.dy())
                by (nonlinear_arith);
        }
    }
    loop
        invariant_except_break
            start.drawn(old(canvas)@, clip, rgba(color)) == l.drawn(canvas@, clip, rgba(color)),
            start.touched(old(canvas)@, clip) == l.touched_with(old(canvas)@, clip, dirty),
        invariant
            canvas.wf(),
            canvas@.width == old(canvas)@.width,
            canvas@.height == old(canvas)@.height,
            l.on_way(),
            l.x0 == x0,
            l.y0 == y0,
            l.x1 == x1,
            l.y1 == y1,
            x == l.x(),
            y == l.y(),
            dx == l.dx(),
            dy == -l.dy(),
            err == l.err(),
            0 <= dx <= 0xffff_ffff,
            -0xffff_ffff <= dy <= 0,
            2 * dy - dx <= err <= 2 * dx - dy,
        ensures
            canvas@ == start.drawn(old(canvas)@, clip, rgba(color)),
            dirty == start.touched(old(canvas)@, clip),
        decreases l.steps_left(),
    {
        let dot = canvas.fill_rect(Rect::new(x, y, 1, 1), clip, color);
        proof {
            lemma_dot(old(canvas)@, clip, x, y);
        }
        if !dot.is_empty() {
            dirty = dirty.union(&dot);
        }
        if x == x1 && y == y1 {
            break;
        }
        proof {
            lemma_line_step(l);
            l = l.next();
        }
        let e2: i64 = 2 * err;
        if e2 >= dy {
            err = err + dy;
            if x0 < x1 {
                x = x + 1;
            } else {
                x = x - 1;
            }
        }
        if e2 <= dx {
            err = err + dx;
            if y0 < y1 {
                y = y + 1;
            } else {
                y = y - 1;
            }
        }
    }
    dirty
}

} // verus!
