//! Where an active session delivers what it shows.

use crate::orders::canvas::{lemma_cell, max, CanvasView};
use crate::rdp::frame::{FrameView, UpdateRegion};
use crate::text::push_text;
use vstd::prelude::*;

verus! {

/// A mouse-cursor image (RGBA32, top-down) plus its hotspot, for client-side
/// cursor rendering (drawn at the local mouse position so it tracks instantly).
#[derive(Debug)]
pub struct PointerImage {
    pub width: u16,
    pub height: u16,
    pub hotspot_x: u16,
    pub hotspot_y: u16,
    pub rgba: Vec<u8>,
}

/// A change to the remote mouse cursor.
#[derive(Debug)]
pub enum PointerUpdate {
    /// New cursor shape.
    Bitmap(PointerImage),
    /// Cursor hidden (e.g. text caret / no pointer).
    Hidden,
    /// Reset to the default system arrow.
    SystemDefault,
}

/// Periodic live-session statistics for the viewer's diagnostics readout.
#[derive(Debug, Clone, Copy, PartialEq, Eq, Structural)]
pub struct SessionStats {
    /// Inbound (sealed) bytes/second over the last interval.
    pub bytes_per_sec: u64,
}

impl Default for SessionStats {
    fn default() -> (r: Self)
        ensures
            r.bytes_per_sec == 0,
    {
        SessionStats { bytes_per_sec: 0 }
    }
}

/// Callbacks of an active RDP session.
pub trait SessionSink: Send + Sized {
    /// Called when a region of the framebuffer changed. `frame` is the full RGBA
    /// framebuffer; `region` is the dirty rectangle.
    fn on_graphics_update<F: FrameView>(&mut self, frame: &F, region: UpdateRegion)
        requires
            frame.valid(),
    ;

    /// Called when the remote cursor shape or visibility changes. Ignored unless
    /// a sink says otherwise.
    fn on_pointer(&mut self, update: PointerUpdate)
        default_ensures
            *final(self) == *old(self),
    {
    }

    /// Called about once per second with live session statistics. Ignored unless
    /// a sink says otherwise.
    fn on_stats(&mut self, stats: SessionStats)
        default_ensures
            *final(self) == *old(self),
    {
    }

    /// Connection progress (shown until the first frame paints). Ignored unless a
    /// sink says otherwise.
    fn on_status(&mut self, status: &str)
        default_ensures
            *final(self) == *old(self),
    {
    }

    /// Called when the session ends.
    fn on_terminate(&mut self, reason: String);
}

/// How many pixels an inclusive region has; inverted edges count as one pixel.
pub open spec fn region_pixels(r: UpdateRegion) -> int {
    (max(r.right - r.left, 0) + 1) * (max(r.bottom - r.top, 0) + 1)
}

fn extent(from: u16, to: u16) -> (r: u64)
    ensures
        r == max(to - from, 0) + 1,
        r <= 0x10000,
{
    if to > from {
        (to - from) as u64 + 1
    } else {
        1
    }
}

/// A simple headless sink that just counts updates (for validation).
#[derive(Debug)]
pub struct LoggingSink {
    pub updates: u64,
    pub total_pixels: u64,
}

impl Default for LoggingSink {
    fn default() -> (r: Self)
        ensures
            r.updates == 0,
            r.total_pixels == 0,
    {
        LoggingSink { updates: 0, total_pixels: 0 }
    }
}

impl LoggingSink {
    /// Whether the last update is worth a line in the log: the first twenty are,
    /// and every fiftieth.
    pub fn reports(&self) -> (r: bool)
        ensures
            r == (self.updates <= 20 || self.updates % 50 == 0),
    {
        self.updates <= 20 || self.updates % 50 == 0
    }
}

impl SessionSink for LoggingSink {
    fn on_graphics_update<F: FrameView>(&mut self, frame: &F, region: UpdateRegion)
        ensures
            final(self).updates == old(self).updates.wrapping_add(1),
            final(self).total_pixels == old(self).total_pixels.wrapping_add(
                region_pixels(region) as u64,
            ),
    {
        let w: u64 = extent(region.left, region.right);
        let h: u64 = extent(region.top, region.bottom);
        assert(w * h <= 0x10000 * 0x10000) by (nonlinear_arith)
            requires
                w <= 0x10000,
                h <= 0x10000,
        ;
        self.updates = self.updates.wrapping_add(1);
        self.total_pixels = self.total_pixels.wrapping_add(w * h);
    }

    fn on_terminate(&mut self, reason: String)
        ensures
            *final(self) == *old(self),
    {
    }
}

/// Whether the color values of a pixel come to more than `over`.
pub open spec fn is_lit(cv: CanvasView, over: int, x: int, y: int) -> bool {
    let c = (cv.at)(x, y);
    c.0 + c.1 + c.2 > over
}

/// How many of the first `x` pixels of row `y` are lit.
pub open spec fn lit_in_row(cv: CanvasView, over: int, y: int, x: nat) -> nat
    decreases x,
{
    if x == 0 {
        0
    } else {
        lit_in_row(cv, over, y, (x - 1) as nat) + if is_lit(cv, over, x - 1, y) {
            1nat
        } else {
            0nat
        }
    }
}

/// How many pixels of the first `y` rows are lit.
pub open spec fn lit_in_rows(cv: CanvasView, over: int, y: nat) -> nat
    decreases y,
{
    if y == 0 {
        0
    } else {
        lit_in_rows(cv, over, (y - 1) as nat) + lit_in_row(cv, over, y - 1, cv.width as nat)
    }
}

/// How many pixels are lit.
pub open spec fn lit(cv: CanvasView, over: int) -> nat {
    lit_in_rows(cv, over, cv.height as nat)
}

/// Count the pixels of a frame whose color values come to more than `over`, so
/// that one knows if there is actual content.
pub fn lit_pixels<F: FrameView>(frame: &F, over: u32) -> (n: u64)
    requires
        frame.valid(),
    ensures
        n == lit(frame.shows(), over as int),
{
    let width: u16 = frame.width();
    let height: u16 = frame.height();
    let data: &[u8] = frame.data();
    let ghost cv = frame.shows();
    let mut n: u64 = 0;
    let mut y: u16 = 0;
    while y < height
        invariant
            cv.stored(data@),
            data.len() == data@.len(),
            width == cv.width,
            height == cv.height,
            y <= height,
            n == lit_in_rows(cv, over as int, y as nat),
            n <= y * 0x10000,
        decreases height - y,
    {
        let mut x: u16 = 0;
        let ghost n0 = n;
        while x < width
            invariant
                cv.stored(data@),
                data.len() == data@.len(),
                width == cv.width,
                height == cv.height,
                y < height,
                x <= width,
                n0 <= y * 0x10000,
                n == n0 + lit_in_row(cv, over as int, y as int, x as nat),
                n <= n0 + x,
            decreases width - x,
        {
            proof {
                assert(cv.on(x as int, y as int));
                lemma_cell(x as int, y as int, width as int, height as int);
                assert(0 <= y * width) by (nonlinear_arith)
                    requires
                        y >= 0,
                        width >= 0,
                ;
            }
            let i: usize = (y as usize * width as usize + x as usize) * 4;
            if data[i] as u32 + data[i + 1] as u32 + data[i + 2] as u32 > over {
                n = n + 1;
            }
            x = x + 1;
        }
        y = y + 1;
    }
    n
}

/// A pixel up to this brightness counts as black in a benchmark.
pub const NEARLY_BLACK: u32 = 12;

/// What a benchmark run has seen.
#[derive(Debug, Clone, Copy, PartialEq, Eq, Structural)]
pub struct BenchStats {
    pub updates: u64,
    pub first_paint_ms: Option<u64>,
    pub last_update_ms: u64,
    pub nonblack: u64,
    pub total_px: u64,
}

impl Default for BenchStats {
    fn default() -> (r: Self)
        ensures
            r == (BenchStats {
                updates: 0,
                first_paint_ms: None,
                last_update_ms: 0,
                nonblack: 0,
                total_px: 0,
            }),
    {
        BenchStats { updates: 0, first_paint_ms: None, last_update_ms: 0, nonblack: 0, total_px: 0 }
    }
}

impl BenchStats {
    /// Take note of an update at `now_ms`.
    pub fn painted<F: FrameView>(&mut self, now_ms: u64, frame: &F)
        requires
            frame.valid(),
        ensures
            *final(self) == (BenchStats {
                updates: old(self).updates.wrapping_add(1),
                first_paint_ms: if old(self).first_paint_ms is Some {
                    old(self).first_paint_ms
                } else {
                    Some(now_ms)
                },
                last_update_ms: now_ms,
                nonblack: lit(frame.shows(), NEARLY_BLACK as int) as u64,
                total_px: (frame.shows().width * frame.shows().height) as u64,
            }),
    {
        self.updates = self.updates.wrapping_add(1);
        if self.first_paint_ms.is_none() {
            self.first_paint_ms = Some(now_ms);
        }
        self.last_update_ms = now_ms;
        self.nonblack = lit_pixels(frame, NEARLY_BLACK);
        let w: u64 = frame.width() as u64;
        let h: u64 = frame.height() as u64;
        assert(w * h <= 0xFFFF * 0xFFFF) by (nonlinear_arith)
            requires
                w <= 0xFFFF,
                h <= 0xFFFF,
        ;
        self.total_px = w * h;
    }
}

/// The next place of a pointer that wanders to the right, to wake a remote desktop
/// that stands still: past `limit` it starts over.
pub fn wander(x: u16, limit: u16, step: u16) -> (r: u16)
    requires
        limit + step <= 0xFFFF,
    ensures
        r == if x > limit {
            100
        } else {
            x + step
        },
{
    if x > limit {
        100
    } else {
        x + step
    }
}

/// A sink that keeps count of what a dumped frame holds (for headless visual
/// debugging).
#[derive(Debug)]
pub struct PngDumpSink {
    pub path: String,
    pub updates: u64,
    pub nonblack_pixels: u64,
}

impl PngDumpSink {
    pub fn new(path: String) -> (r: Self)
        ensures
            r.path@ == path@,
            r.updates == 0,
            r.nonblack_pixels == 0,
    {
        PngDumpSink { path, updates: 0, nonblack_pixels: 0 }
    }

    /// Where a frame is written before it takes its place, so that a reader never
    /// sees half of one.
    pub fn temporary_path(&self) -> (r: String)
        ensures
            r@ == self.path@ + ".tmp"@,
    {
        let mut s = String::new();
        push_text(&mut s, self.path.as_str());
        push_text(&mut s, ".tmp");
        assert(s@ =~= self.path@ + ".tmp"@);
        s
    }

    /// Whether the last update is worth a line in the log: the first three are,
    /// and every twenty-fifth.
    pub fn reports(&self) -> (r: bool)
        ensures
            r == (self.updates <= 3 || self.updates % 25 == 0),
    {
        self.updates <= 3 || self.updates % 25 == 0
    }
}

impl SessionSink for PngDumpSink {
    fn on_graphics_update<F: FrameView>(&mut self, frame: &F, region: UpdateRegion)
        ensures
            final(self).path == old(self).path,
            final(self).updates == old(self).updates.wrapping_add(1),
            final(self).nonblack_pixels == lit(frame.shows(), 0),
    {
        self.updates = self.updates.wrapping_add(1);
        self.nonblack_pixels = lit_pixels(frame, 0);
    }

    fn on_terminate(&mut self, reason: String)
        ensures
            *final(self) == *old(self),
    {
    }
}

} // verus!
