//! The order-stream processor: decodes a Fast-Path "Orders" update into the
//! [`OrderCanvas`], maintaining persistent per-order field state, the clip
//! bounds, and the caches across orders.

use crate::orders::cache::{BitmapCache, BitmapCacheView, GlyphCache, GlyphCacheView, PaletteCache};
use crate::orders::canvas::{min, CanvasView, OrderCanvas, Rect};
use crate::orders::color::{rgba, ColorDepth};
use crate::orders::cursor::{Cursor, Reading};
use crate::orders::error::OrderError;
use crate::orders::glyph::{FastGlyph, FastIndex, FastTextView, GlyphIndex, GlyphIndexView};
use crate::orders::header::{
    field_bytes, field_bytes_of, flag_set, read_field_flags, Bounds, ORD_DSTBLT, ORD_FAST_GLYPH,
    ORD_FAST_INDEX, ORD_GLYPH_INDEX, ORD_LINE_TO, ORD_MEMBLT, ORD_OPAQUE_RECT, ORD_PATBLT,
    ORD_SCRBLT, TS_BOUNDS, TS_DELTA_COORDINATES, TS_SECONDARY, TS_STANDARD, TS_TYPE_CHANGE,
    TS_ZERO_BOUNDS_DELTAS,
};
use crate::orders::primary::{DstBlt, LineTo, MemBlt, OpaqueRect, PatBlt, ScrBlt};
use crate::orders::rop::Rop3;
use crate::orders::secondary::{applied, apply, Caches};
use vstd::prelude::*;

verus! {

// Alternate-secondary order types that can be sized (to keep the stream in sync).
pub const ALTSEC_SWITCH_SURFACE: u8 = 0x00;

pub const ALTSEC_FRAME_MARKER: u8 = 0x0D;

/// Result of processing one Orders update.
#[derive(Debug, Clone, Copy)]
pub struct ProcessOutcome {
    /// Union of all pixels touched (None if nothing drew).
    pub dirty: Option<Rect>,
    /// Number of orders decoded.
    pub orders: usize,
    /// Orders skipped/aborted (unknown alternate-secondary orders, etc.).
    pub skipped: usize,
}

impl Default for ProcessOutcome {
    fn default() -> (r: Self)
        ensures
            r == ProcessOutcome::zero(),
    {
        ProcessOutcome { dirty: None, orders: 0, skipped: 0 }
    }
}

impl ProcessOutcome {
    pub open spec fn zero() -> ProcessOutcome {
        ProcessOutcome { dirty: None, orders: 0, skipped: 0 }
    }

    pub open spec fn count(self) -> int {
        self.orders + self.skipped
    }

    pub open spec fn skip(self) -> ProcessOutcome {
        ProcessOutcome { skipped: (self.skipped + 1) as usize, ..self }
    }

    pub open spec fn decode(self) -> ProcessOutcome {
        ProcessOutcome { orders: (self.orders + 1) as usize, ..self }
    }

    /// One more order decoded, which touched `r`.
    pub open spec fn draw(self, r: Rect) -> ProcessOutcome {
        ProcessOutcome {
            dirty: if r.empty() {
                self.dirty
            } else {
                match self.dirty {
                    None => Some(r),
                    Some(d) => Some(d.join(r)),
                }
            },
            ..self.decode()
        }
    }
}

/// The state that one order leaves for the next.
#[verifier::ext_equal]
pub struct ProcessorView {
    pub canvas: CanvasView,
    pub caches: Caches,
    pub depth: ColorDepth,
    pub bounds: Bounds,
    pub order_type: Option<u8>,
    pub dstblt: DstBlt,
    pub patblt: PatBlt,
    pub scrblt: ScrBlt,
    pub opaque: OpaqueRect,
    pub memblt: MemBlt,
    pub lineto: LineTo,
    pub glyph_index: GlyphIndexView,
    pub fast_index: FastTextView,
    pub fast_glyph: FastTextView,
}

impl ProcessorView {
    pub open spec fn fresh(width: u16, height: u16, depth: ColorDepth) -> ProcessorView {
        ProcessorView {
            canvas: CanvasView::blank(width, height),
            caches: Caches {
                bitmaps: BitmapCacheView::empty(),
                palettes: Map::empty(),
                glyphs: GlyphCacheView::empty(),
            },
            depth,
            bounds: Bounds { left: 0, top: 0, right: 0, bottom: 0 },
            order_type: None,
            dstblt: DstBlt::zero(),
            patblt: PatBlt::zero(),
            scrblt: ScrBlt::zero(),
            opaque: OpaqueRect::zero(),
            memblt: MemBlt::zero(),
            lineto: LineTo::zero(),
            glyph_index: GlyphIndexView::zero(),
            fast_index: FastTextView::zero(),
            fast_glyph: FastTextView::zero(),
        }
    }

    /// An alternate secondary order: whether it could be sized and skipped.
    pub open spec fn altsec(d: Reading, control: u8) -> (Reading, bool) {
        if control >> 2 == ALTSEC_FRAME_MARKER {
            (d.skip(4), true)
        } else if control >> 2 == ALTSEC_SWITCH_SURFACE {
            (d.skip(2), true)
        } else {
            (d, false)
        }
    }

    /// A secondary order. Its length field is 13 less than the whole order, and
    /// 6 bytes stand in front of the payload. An order that the caches refuse
    /// leaves the stream in sync and is no error.
    pub open spec fn secondary(self, d: Reading) -> (Reading, ProcessorView) {
        let (d, order_length) = d.u16();
        let (d, extra_flags) = d.u16();
        let (d, order_type) = d.u8();
        let (e, payload) = d.bytes(min(order_length + 7, d.remaining()));
        if d.ok() {
            (
                e,
                ProcessorView {
                    caches: applied(order_type, extra_flags, payload, self.caches).1,
                    ..self
                },
            )
        } else {
            (d, self)
        }
    }

    /// Read the fields of a primary order and draw it. An order whose fields
    /// cannot be read to the end is not drawn.
    #[verifier::opaque]
    pub open spec fn render(
        self,
        d: Reading,
        order_type: u8,
        ff: u32,
        delta: bool,
        clip: Option<Rect>,
    ) -> (Reading, ProcessorView, Rect) {
        let none = Rect { x: 0, y: 0, w: 0, h: 0 };
        if order_type == ORD_DSTBLT {
            let (d, o) = self.dstblt.decoded(d, ff, delta);
            let s = ProcessorView { dstblt: o, ..self };
            if d.ok() {
                (
                    d,
                    ProcessorView { canvas: self.canvas.rop(o.rect(), clip, Rop3(o.rop)), ..s },
                    self.canvas.clip(o.rect(), clip),
                )
            } else {
                (d, s, none)
            }
        } else if order_type == ORD_OPAQUE_RECT {
            let (d, o) = self.opaque.decoded(d, ff, delta);
            let s = ProcessorView { opaque: o, ..self };
            if d.ok() {
                (
                    d,
                    ProcessorView { canvas: self.canvas.fill(o.rect(), clip, rgba(o.color)), ..s },
                    self.canvas.clip(o.rect(), clip),
                )
            } else {
                (d, s, none)
            }
        } else if order_type == ORD_PATBLT {
            let (d, o) = self.patblt.decoded(d, ff, delta);
            let s = ProcessorView { patblt: o, ..self };
            if d.ok() {
                (
                    d,
                    ProcessorView { canvas: self.canvas.fill(o.rect(), clip, o.fill_color()), ..s },
                    self.canvas.clip(o.rect(), clip),
                )
            } else {
                (d, s, none)
            }
        } else if order_type == ORD_SCRBLT {
            let (d, o) = self.scrblt.decoded(d, ff, delta);
            let s = ProcessorView { scrblt: o, ..self };
            if d.ok() {
                (
                    d,
                    ProcessorView { canvas: self.canvas.copy(o.rect(), clip, o.x_src, o.y_src), ..s },
                    self.canvas.clip(o.rect(), clip),
                )
            } else {
                (d, s, none)
            }
        } else if order_type == ORD_MEMBLT {
            let (d, o) = self.memblt.decoded(d, ff, delta);
            let s = ProcessorView { memblt: o, ..self };
            if d.ok() {
                match o.source(self.caches.bitmaps) {
                    Some(b) => (
                        d,
                        ProcessorView {
                            canvas: self.canvas.blit(o.rect(), clip, b, o.x_src, o.y_src),
                            ..s
                        },
                        self.canvas.clip(o.rect(), clip),
                    ),
                    None => (d, s, none),
                }
            } else {
                (d, s, none)
            }
        } else if order_type == ORD_LINE_TO {
            let (d, o) = self.lineto.decoded(d, ff, delta);
            let s = ProcessorView { lineto: o, ..self };
            if d.ok() {
                (
                    d,
                    ProcessorView {
                        canvas: o.line().drawn(self.canvas, clip, rgba(o.pen_color)),
                        ..s
                    },
                    o.line().touched(self.canvas, clip),
                )
            } else {
                (d, s, none)
            }
        } else if order_type == ORD_GLYPH_INDEX {
            let (d, o) = self.glyph_index.decoded(d, ff, delta);
            let s = ProcessorView { glyph_index: o, ..self };
            if d.ok() {
                let (canvas, glyphs, r) = o.drawn(self.canvas, clip, self.caches.glyphs);
                (d, ProcessorView { canvas, caches: Caches { glyphs, ..self.caches }, ..s }, r)
            } else {
                (d, s, none)
            }
        } else if order_type == ORD_FAST_INDEX {
            let (d, o) = self.fast_index.decoded(d, ff, delta);
            let s = ProcessorView { fast_index: o, ..self };
            if d.ok() {
                let (canvas, glyphs, r) = o.drawn(self.canvas, clip, self.caches.glyphs);
                (d, ProcessorView { canvas, caches: Caches { glyphs, ..self.caches }, ..s }, r)
            } else {
                (d, s, none)
            }
        } else if order_type == ORD_FAST_GLYPH {
            let (d, o) = self.fast_glyph.decoded(d, ff, delta);
            let s = ProcessorView { fast_glyph: o, ..self };
            if d.ok() {
                let (canvas, glyphs, r) = o.inline_drawn(self.canvas, clip, self.caches.glyphs);
                (d, ProcessorView { canvas, caches: Caches { glyphs, ..self.caches }, ..s }, r)
            } else {
                (d, s, none)
            }
        } else {
            (d.fail(OrderError::UnsupportedOrderType(order_type)), self, none)
        }
    }

    /// A primary order: the type (kept from the order before unless it changes),
    /// the field flags, the bounds, then the order itself.
    pub open spec fn primary(self, d: Reading, control: u8) -> (Reading, ProcessorView, Rect) {
        let none = Rect { x: 0, y: 0, w: 0, h: 0 };
        let (d, order_type) = if flag_set(control, TS_TYPE_CHANGE) {
            let (d, t) = d.u8();
            (
                d,
                if d.ok() {
                    Some(t)
                } else {
                    self.order_type
                },
            )
        } else {
            (d, self.order_type)
        };
        let s = ProcessorView { order_type, ..self };
        if !d.ok() {
            (d, s, none)
        } else {
            match order_type {
                None => (d.fail(OrderError::NoOrderType(control)), s, none),
                Some(t) => match field_bytes_of(t) {
                    None => (d.fail(OrderError::UnsupportedOrderType(t)), s, none),
                    Some(fb) => {
                        let (d, ff) = d.field_flags(control, fb);
                        let (d, bounds) = if d.ok() && flag_set(control, TS_BOUNDS) && !flag_set(
                            control,
                            TS_ZERO_BOUNDS_DELTAS,
                        ) {
                            self.bounds.updated(d)
                        } else {
                            (d, self.bounds)
                        };
                        let s = ProcessorView { bounds, ..s };
                        let clip = if flag_set(control, TS_BOUNDS) {
                            Some(
                                Rect::inclusive(
                                    bounds.left,
                                    bounds.top,
                                    bounds.right,
                                    bounds.bottom,
                                ),
                            )
                        } else {
                            None
                        };
                        if d.ok() {
                            s.render(d, t, ff, flag_set(control, TS_DELTA_COORDINATES), clip)
                        } else {
                            (d, s, none)
                        }
                    },
                },
            }
        }
    }

    /// The orders of an update, one after the other, until `total` of them have
    /// been met, the data ends, an error occurs, or an alternate secondary order
    /// cannot be sized.
    pub open spec fn orders(self, d: Reading, total: nat, out: ProcessOutcome) -> (
        Reading,
        ProcessorView,
        ProcessOutcome,
    )
        decreases total - out.count(),
    {
        if out.count() >= total || total > 0xffff || d.remaining() <= 0 {
            (d, self, out)
        } else {
            let (d, control) = d.u8();
            if !flag_set(control, TS_STANDARD) {
                let (d, known) = Self::altsec(d, control);
                if !d.ok() {
                    (d, self, out)
                } else if known {
                    self.orders(d, total, out.skip())
                } else {
                    (d, self, out.skip())
                }
            } else if flag_set(control, TS_SECONDARY) {
                let (d, s) = self.secondary(d);
                if !d.ok() {
                    (d, s, out)
                } else {
                    s.orders(d, total, out.decode())
                }
            } else {
                let (d, s, r) = self.primary(d, control);
                if !d.ok() {
                    (d, s, out)
                } else {
                    s.orders(d, total, out.draw(r))
                }
            }
        }
    }

    /// One Orders update: the number of orders (2 bytes), then the orders.
    pub open spec fn update(self, data: Seq<u8>) -> (Reading, ProcessorView, ProcessOutcome) {
        let (d, total) = Reading::start(data).u16();
        if d.ok() {
            self.orders(d, total as nat, ProcessOutcome::zero())
        } else {
            (d, self, ProcessOutcome::zero())
        }
    }
}

pub struct OrderProcessor {
    canvas: OrderCanvas,
    bitmaps: BitmapCache,
    palettes: PaletteCache,
    glyphs: GlyphCache,
    depth: ColorDepth,
    bounds: Bounds,
    current_order_type: Option<u8>,
    // Persistent per-order field state (RDP omits unchanged fields).
    dstblt: DstBlt,
    patblt: PatBlt,
    scrblt: ScrBlt,
    opaque: OpaqueRect,
    memblt: MemBlt,
    lineto: LineTo,
    glyph_index: GlyphIndex,
    fast_index: FastIndex,
    fast_glyph: FastGlyph,
}

impl View for OrderProcessor {
    type V = ProcessorView;

    closed spec fn view(&self) -> ProcessorView {
        ProcessorView {
            canvas: self.canvas@,
            caches: Caches {
                bitmaps: self.bitmaps@,
                palettes: self.palettes@,
                glyphs: self.glyphs@,
            },
            depth: self.depth,
            bounds: self.bounds,
            order_type: self.current_order_type,
            dstblt: self.dstblt,
            patblt: self.patblt,
            scrblt: self.scrblt,
            opaque: self.opaque,
            memblt: self.memblt,
            lineto: self.lineto,
            glyph_index: self.glyph_index@,
            fast_index: self.fast_index@,
            fast_glyph: self.fast_glyph@,
        }
    }
}

impl OrderProcessor {
    /// The framebuffer holds four bytes per pixel, and so does every cached
    /// bitmap.
    pub closed spec fn wf(self) -> bool {
        self.canvas.wf() && self.bitmaps@.wf()
    }

    pub fn new(width: u16, height: u16, depth: ColorDepth) -> (r: Self)
        requires
            width * height * 4 <= usize::MAX,
        ensures
            r.wf(),
            r@ == ProcessorView::fresh(width, height, depth),
    {
        Self {
            canvas: OrderCanvas::new(width, height),
            bitmaps: BitmapCache::new(),
            palettes: PaletteCache::new(),
            glyphs: GlyphCache::new(),
            depth,
            bounds: Bounds::default(),
            current_order_type: None,
            dstblt: DstBlt::default(),
            patblt: PatBlt::default(),
            scrblt: ScrBlt::default(),
            opaque: OpaqueRect::default(),
            memblt: MemBlt::default(),
            lineto: LineTo::default(),
            glyph_index: GlyphIndex::default(),
            fast_index: FastIndex::default(),
            fast_glyph: FastGlyph::default(),
        }
    }

    pub fn canvas(&self) -> (r: &OrderCanvas)
        requires
            self.wf(),
        ensures
            r.wf(),
            r@ == self@.canvas,
    {
        &self.canvas
    }

    /// Resize the framebuffer (reactivation with a new desktop size). The
    /// caches survive; only the canvas is cleared.
    pub fn resize(&mut self, width: u16, height: u16)
        requires
            old(self).wf(),
            width * height * 4 <= usize::MAX,
        ensures
            final(self).wf(),
            final(self)@ == (ProcessorView {
                canvas: CanvasView::blank(width, height),
                ..old(self)@
            }),
    {
        self.canvas.resize(width, height);
    }

    /// Process a Fast-Path Orders update. `data` is the update payload:
    /// the number of orders (2 bytes LE) followed by the order bytes.
    pub fn process_orders(&mut self, data: &[u8]) -> (r: Result<ProcessOutcome, OrderError>)
        requires
            old(self).wf(),
        ensures
            final(self).wf(),
            final(self)@ == old(self)@.update(data@).1,
            r == old(self)@.update(data@).0.outcome(old(self)@.update(data@).2),
    {
        let mut c = Cursor::new(data);
        let number_orders: usize = c.u16()? as usize;
        let mut out = ProcessOutcome::default();
        let ghost d0 = c@;
        while out.orders + out.skipped < number_orders && !c.is_empty()
            invariant_except_break
                old(self)@.update(data@) == self@.orders(c@, number_orders as nat, out),
            invariant
                self.wf(),
                c@.live(),
                out.count() <= number_orders <= 0xffff,
            ensures
                old(self)@.update(data@) == (c@, self@, out),
            decreases number_orders - out.count(),
        {
            let control: u8 = c.u8()?;
            if control & TS_STANDARD == 0 {
                // Alternate secondary order: it has no length field, so parsing
                // can only go on if it is known how to size it.
                let known: bool = self.altsec(&mut c, control)?;
                out.skipped = out.skipped + 1;
                if !known {
                    break;
                }
                continue;
            }
            if control & TS_SECONDARY != 0 {
                self.secondary(&mut c)?;
                out.orders = out.orders + 1;
                continue;
            }
            let r = self.primary(&mut c, control)?;
            if !r.is_empty() {
                out.dirty = match out.dirty {
                    Some(d) => Some(d.union(&r)),
                    None => Some(r),
                };
            }
            out.orders = out.orders + 1;
        }
        Ok(out)
    }

    fn secondary(&mut self, c: &mut Cursor) -> (r: Result<(), OrderError>)
        requires
            old(self).wf(),
            old(c)@.live(),
        ensures
            final(self).wf(),
            final(c)@.live(),
            final(c)@ == (Reading { err: None, ..old(self)@.secondary(old(c)@).0 }),
            final(self)@ == old(self)@.secondary(old(c)@).1,
            r == old(self)@.secondary(old(c)@).0.outcome(()),
    {
        let order_length: usize = c.u16()? as usize;
        let extra_flags: u16 = c.u16()?;
        let order_type: u8 = c.u8()?;
        let left: usize = c.remaining();
        let payload_len: usize = if order_length + 7 <= left {
            order_length + 7
        } else {
            left
        };
        let payload: &[u8] = c.bytes(payload_len)?;
        // An order that the caches refuse is skipped.
        let _refused = apply(
            order_type,
            extra_flags,
            payload,
            &mut self.bitmaps,
            &mut self.palettes,
            &mut self.glyphs,
        );
        Ok(())
    }

    fn primary(&mut self, c: &mut Cursor, control: u8) -> (r: Result<Rect, OrderError>)
        requires
            old(self).wf(),
            old(c)@.live(),
        ensures
            final(self).wf(),
            final(c)@.live(),
            final(c)@ == (Reading { err: None, ..old(self)@.primary(old(c)@, control).0 }),
            final(self)@ == old(self)@.primary(old(c)@, control).1,
            r == old(self)@.primary(old(c)@, control).0.outcome(
                old(self)@.primary(old(c)@, control).2,
            ),
    {
        if control & TS_TYPE_CHANGE != 0 {
            self.current_order_type = Some(c.u8()?);
        }
        let order_type: u8 = match self.current_order_type {
            Some(t) => t,
            None => return Err(OrderError::NoOrderType(control)),
        };
        let fb: u8 = match field_bytes(order_type) {
            Some(n) => n,
            None => return Err(OrderError::UnsupportedOrderType(order_type)),
        };
        let field_flags: u32 = read_field_flags(c, control, fb)?;
        // Bounds (clip). TS_BOUNDS: bounds apply; they are only read again when
        // TS_ZERO_BOUNDS_DELTAS is clear.
        let clip: Option<Rect> = if control & TS_BOUNDS != 0 {
            if control & TS_ZERO_BOUNDS_DELTAS == 0 {
                self.bounds.read(c)?;
            }
            Some(self.bounds.to_rect())
        } else {
            None
        };
        let delta: bool = control & TS_DELTA_COORDINATES != 0;
        self.render(c, order_type, field_flags, delta, clip)
    }

    /// Decode one primary order's fields and draw it.
    #[verifier::spinoff_prover]
    fn render(
        &mut self,
        c: &mut Cursor,
        order_type: u8,
        field_flags: u32,
        delta: bool,
        clip: Option<Rect>,
    ) -> (r: Result<Rect, OrderError>)
        requires
            old(self).wf(),
            old(c)@.live(),
        ensures
            final(self).wf(),
            final(c)@.live(),
            ({
                let (d, s, dirty) = old(self)@.render(
                    old(c)@,
                    order_type,
                    field_flags,
                    delta,
                    clip,
                );
                final(c)@ == (Reading { err: None, ..d }) && final(self)@ == s && r == d.outcome(
                    dirty,
                )
            }),
    {
        proof {
            reveal(ProcessorView::render);
        }
        match order_type {
            ORD_DSTBLT => {
                self.dstblt.decode(c, field_flags, delta)?;
                Ok(self.dstblt.draw(&mut self.canvas, clip))
            },
            ORD_OPAQUE_RECT => {
                self.opaque.decode(c, field_flags, delta)?;
                Ok(self.opaque.draw(&mut self.canvas, clip))
            },
            ORD_PATBLT => {
                self.patblt.decode(c, field_flags, delta)?;
                Ok(self.patblt.draw(&mut self.canvas, clip))
            },
            ORD_SCRBLT => {
                self.scrblt.decode(c, field_flags, delta)?;
                Ok(self.scrblt.draw(&mut self.canvas, clip))
            },
            ORD_MEMBLT => {
                self.memblt.decode(c, field_flags, delta)?;
                Ok(self.memblt.draw(&mut self.canvas, clip, &self.bitmaps))
            },
            ORD_LINE_TO => {
                self.lineto.decode(c, field_flags, delta)?;
                Ok(self.lineto.draw(&mut self.canvas, clip))
            },
            ORD_GLYPH_INDEX => {
                self.glyph_index.decode(c, field_flags, delta)?;
                Ok(self.glyph_index.draw(&mut self.canvas, clip, &mut self.glyphs))
            },
            ORD_FAST_INDEX => {
                self.fast_index.decode(c, field_flags, delta)?;
                Ok(self.fast_index.draw(&mut self.canvas, clip, &mut self.glyphs))
            },
            ORD_FAST_GLYPH => {
                self.fast_glyph.decode(c, field_flags, delta)?;
                Ok(self.fast_glyph.draw(&mut self.canvas, clip, &mut self.glyphs))
            },
            other => Err(OrderError::UnsupportedOrderType(other)),
        }
    }

    /// Returns Ok(true) if the alternate secondary order was sized and skipped,
    /// Ok(false) if it is unknown (the caller stops parsing this update).
    fn altsec(&mut self, c: &mut Cursor, control: u8) -> (r: Result<bool, OrderError>)
        requires
            old(c)@.live(),
        ensures
            *final(self) == *old(self),
            final(c)@.live(),
            final(c)@ == (Reading { err: None, ..ProcessorView::altsec(old(c)@, control).0 }),
            r == ProcessorView::altsec(old(c)@, control).0.outcome(
                ProcessorView::altsec(old(c)@, control).1,
            ),
    {
        let order_type: u8 = control >> 2;
        match order_type {
            ALTSEC_FRAME_MARKER => {
                c.skip(4)?;
                Ok(true)
            },
            ALTSEC_SWITCH_SURFACE => {
                c.skip(2)?;
                Ok(true)
            },
            _ => Ok(false),
        }
    }
}

} // verus!
