//! The active RDP session: what the client decides about each PDU, each tick of
//! its timers and each reactivation. The caller moves the bytes, runs the decoder
//! for everything but drawing orders, and shows what is handed to it.

use crate::orders::canvas::{max, min, CanvasView};
use crate::orders::color::ColorDepth;
use crate::orders::laws::{law_dirty_covers_changes, law_update_keeps_size};
use crate::orders::processor::{OrderProcessor, ProcessorView};
use crate::protocol::error::{is_protocol, protocol_error, protocol_error_about, Error};
use crate::protocol::mppc::{MppcDecompressor, MppcState, HISTORY_CAP};
use crate::rdp::fastpath::{
    any_compressed, assemble, decode_fastpath_orders, inflate_all, maybe_decompress, orders_in,
    reassemble_orders, rebuilt, updates, Assembly, Decomp,
};
use crate::rdp::frame::{
    joined, law_composite_follows_the_canvas, law_joined_regions_cover_both, order_region,
    overlaid, region_of, union_region, CompositeFrame, FrameView, UpdateRegion,
};
use crate::rdp::pdu::{complete_pdu, pdu_size, take_pdu, Action};
use crate::text::parse::{contains, occurs, parse_u32, unsigned32};
use crate::text::{chars_of, same_text};
use crate::wire::{contents, push_slice};
use std::collections::VecDeque;
use vstd::prelude::*;

verus! {

/// A run of this many failed order streams means that the stream is out of sync.
pub const ORDER_FAIL_RECONNECT: u32 = 60;

/// Only this many clean order streams in a row make up for failures.
pub const ORDER_OK_RESET: u32 = 8;

/// Half the extent of the area to refresh around a point of the cursor's path.
pub const CURSOR_PAD: u16 = 48;

/// What the session is asked to do beyond showing the desktop.
#[derive(Debug, Clone, Copy, PartialEq, Eq, Structural)]
pub struct ActiveSettings {
    /// Have the server repaint where the cursor has been: it bakes the cursor into
    /// the desktop and never erases old positions.
    pub cursor_refresh: bool,
    /// Share the clipboard.
    pub clipboard: bool,
    /// Serve the curtain.
    pub curtain: bool,
    /// Now and then show the whole composite even if nothing was painted.
    pub force_paint: bool,
}

/// What the session knows.
#[verifier::ext_equal]
pub struct ActiveView {
    pub settings: ActiveSettings,
    pub width: u16,
    pub height: u16,
    pub io_channel_id: u16,
    pub user_channel_id: u16,
    pub share_id: u32,
    /// The renderer of drawing orders.
    pub orders: ProcessorView,
    /// The desktop as it is shown.
    pub composite: CanvasView,
    /// The history of the compressed stream.
    pub decomp: MppcState,
    /// Updates that are decompressed and wait for their turn.
    pub extra: Seq<Seq<u8>>,
    /// Bytes received and not consumed.
    pub buf: Seq<u8>,
    /// What changed since the desktop was last shown.
    pub pending: Option<UpdateRegion>,
    /// The order update under assembly.
    pub assembly: Assembly,
    pub fail_streak: u32,
    pub ok_streak: u32,
    /// How often the desktop was painted.
    pub frames: u64,
    pub pdus: u64,
    /// Where the cursor has been since the last refresh.
    pub trail: Option<UpdateRegion>,
    pub curtain_applied: bool,
}

/// An active session.
pub struct ActiveSession {
    settings: ActiveSettings,
    width: u16,
    height: u16,
    io_channel_id: u16,
    user_channel_id: u16,
    share_id: u32,
    orders: OrderProcessor,
    composite: CompositeFrame,
    decomp: MppcDecompressor,
    extra: VecDeque<Vec<u8>>,
    buf: Vec<u8>,
    pending: Option<UpdateRegion>,
    order_frag: Vec<u8>,
    order_frag_active: bool,
    fail_streak: u32,
    ok_streak: u32,
    frames: u64,
    pdus: u64,
    trail: Option<UpdateRegion>,
    curtain_applied: bool,
}

impl View for ActiveSession {
    type V = ActiveView;

    closed spec fn view(&self) -> ActiveView {
        ActiveView {
            settings: self.settings,
            width: self.width,
            height: self.height,
            io_channel_id: self.io_channel_id,
            user_channel_id: self.user_channel_id,
            share_id: self.share_id,
            orders: self.orders@,
            composite: self.composite@,
            decomp: self.decomp@,
            extra: contents(self.extra@),
            buf: self.buf@,
            pending: self.pending,
            assembly: Assembly { buf: self.order_frag@, active: self.order_frag_active },
            fail_streak: self.fail_streak,
            ok_streak: self.ok_streak,
            frames: self.frames,
            pdus: self.pdus,
            trail: self.trail,
            curtain_applied: self.curtain_applied,
        }
    }
}

/// What comes next.
pub enum Next {
    /// A PDU to process.
    Frame(Action, Vec<u8>),
    /// Nothing is buffered: show what changed, if anything, and wait.
    Wait(Option<UpdateRegion>),
}

/// What a PDU turns out to be.
pub enum FrameKind {
    /// Nothing yet.
    Nothing,
    /// A complete stream of drawing orders.
    Orders(Vec<u8>),
    /// Something for the decoder.
    Stage(Vec<u8>),
}

/// What came of a stream of drawing orders.
pub enum Rendered {
    /// Nothing has to be shown at once.
    Quiet,
    /// Show this region now.
    Show(UpdateRegion),
    /// The stream could not be decoded; this many have failed.
    Failed(u32),
    /// The stream is out of sync and never heals: reconnect.
    Desync(Error),
}

/// How many milliseconds ago the bandwidth was reported, the clipboard looked at, and
/// the desktop shown.
#[derive(Debug, Clone, Copy)]
pub struct Elapsed {
    pub stats: u64,
    pub clipboard: u64,
    pub shown: u64,
}

/// What is due between two PDUs.
#[derive(Debug, Clone, Copy)]
pub struct Due {
    /// Report the bandwidth.
    pub stats: bool,
    /// Look at the local clipboard.
    pub clipboard: bool,
    /// Announce a file that the operator picked, if there is one.
    pub file: bool,
    /// Send this state of the curtain.
    pub curtain: Option<bool>,
    /// Show this region.
    pub show: Option<UpdateRegion>,
}

/// One more, as far as the number goes.
pub open spec fn one_more(n: u32) -> u32 {
    if n == u32::MAX {
        n
    } else {
        (n + 1) as u32
    }
}

fn count_up(n: u32) -> (r: u32)
    ensures
        r == one_more(n),
{
    if n == u32::MAX {
        n
    } else {
        n + 1
    }
}

/// What a fast-path PDU gives, decompressed, if anything.
pub enum Inflated {
    Nothing,
    Frame(Seq<u8>, Seq<Seq<u8>>),
}

/// The PDU to look at and those that wait: a PDU without compression is looked at
/// as it is.
pub open spec fn inflated_frame(dec: MppcState, frame: Seq<u8>) -> Inflated {
    let out = rebuilt(frame[0], dec, updates(frame));
    if !any_compressed(updates(frame)) {
        Inflated::Frame(frame, Seq::empty())
    } else if out.len() == 0 {
        Inflated::Nothing
    } else {
        Inflated::Frame(out[0], out.skip(1))
    }
}

/// What a PDU turns out to be.
pub enum KindView {
    Nothing,
    Orders(Seq<u8>),
    Stage(Seq<u8>),
}

impl View for FrameKind {
    type V = KindView;

    open spec fn view(&self) -> KindView {
        match *self {
            FrameKind::Nothing => KindView::Nothing,
            FrameKind::Orders(v) => KindView::Orders(v@),
            FrameKind::Stage(v) => KindView::Stage(v@),
        }
    }
}

impl ActiveView {
    /// A session that has just become active.
    pub open spec fn fresh(
        settings: ActiveSettings,
        width: u16,
        height: u16,
        io_channel_id: u16,
        user_channel_id: u16,
        share_id: u32,
        buf: Seq<u8>,
        decomp: MppcState,
    ) -> ActiveView {
        ActiveView {
            settings,
            width,
            height,
            io_channel_id,
            user_channel_id,
            share_id,
            orders: ProcessorView::fresh(width, height, ColorDepth::Bpp16),
            composite: CanvasView::blank(width, height),
            decomp,
            extra: Seq::empty(),
            buf,
            pending: None,
            assembly: Assembly { buf: Seq::empty(), active: false },
            fail_streak: 0,
            ok_streak: 0,
            frames: 0,
            pdus: 0,
            trail: None,
            curtain_applied: false,
        }
    }

    /// The session with what is pending shown.
    pub open spec fn shown(self) -> ActiveView {
        ActiveView {
            pending: None,
            frames: if self.pending is Some {
                self.frames.wrapping_add(1)
            } else {
                self.frames
            },
            ..self
        }
    }

    /// The session after a PDU has been looked at, and what it turned out to be.
    pub open spec fn classified(self, action: Action, frame: Seq<u8>) -> (ActiveView, KindView) {
        if action == Action::X224 {
            (self, KindView::Stage(frame))
        } else {
            let s = ActiveView { decomp: inflate_all(self.decomp, updates(frame)), ..self };
            match inflated_frame(self.decomp, frame) {
                Inflated::Nothing => (s, KindView::Nothing),
                Inflated::Frame(f, rest) => {
                    let s = ActiveView { extra: self.extra + rest, ..s };
                    match orders_in(f) {
                        None => (s, KindView::Stage(f)),
                        Some((frag, data)) => {
                            let (assembly, done) = assemble(self.assembly, frag, data);
                            (
                                ActiveView { assembly, ..s },
                                match done {
                                    Some(stream) => KindView::Orders(stream),
                                    None => KindView::Nothing,
                                },
                            )
                        },
                    }
                },
            }
        }
    }

    /// The session after a clean order stream has been counted.
    pub open spec fn order_ok(self) -> ActiveView {
        ActiveView {
            ok_streak: one_more(self.ok_streak),
            fail_streak: if one_more(self.ok_streak) >= ORDER_OK_RESET {
                0
            } else {
                self.fail_streak
            },
            ..self
        }
    }

    /// The session after a failed order stream has been counted.
    pub open spec fn order_failed(self) -> ActiveView {
        ActiveView { ok_streak: 0, fail_streak: one_more(self.fail_streak), ..self }
    }

    /// The session with a region of another frame copied into the composite and
    /// pending to be shown.
    pub open spec fn painted(self, from: CanvasView, region: UpdateRegion) -> ActiveView {
        ActiveView {
            composite: self.blitted(from, region),
            pending: Some(joined(self.pending, region)),
            ..self
        }
    }

    /// The composite with a region of another frame copied into it, if that has
    /// the same size.
    pub open spec fn blitted(self, from: CanvasView, region: UpdateRegion) -> CanvasView {
        if from.width == self.composite.width && from.height == self.composite.height {
            overlaid(self.composite, from, region)
        } else {
            self.composite
        }
    }

    /// The whole of the composite.
    pub open spec fn everything(self) -> UpdateRegion {
        UpdateRegion::whole(self.composite.width, self.composite.height)
    }

    /// Where the cursor has been, a point more: with room around it, cut to the
    /// desktop at the right and at the bottom.
    pub open spec fn moved_over(self, x: u16, y: u16) -> ActiveView {
        let around = UpdateRegion {
            left: max(x - CURSOR_PAD, 0) as u16,
            top: max(y - CURSOR_PAD, 0) as u16,
            right: min(x + CURSOR_PAD, max(self.width - 1, 0)) as u16,
            bottom: min(y + CURSOR_PAD, max(self.height - 1, 0)) as u16,
        };
        ActiveView { trail: Some(joined(self.trail, around)), ..self }
    }

    /// The session after a reactivation. What belongs to the old desktop is
    /// dropped; the history of the compressed stream stays, since the server's
    /// compressor does not restart.
    pub open spec fn reactivated(
        self,
        width: u16,
        height: u16,
        io_channel_id: u16,
        user_channel_id: u16,
    ) -> ActiveView {
        ActiveView {
            width,
            height,
            io_channel_id,
            user_channel_id,
            orders: ProcessorView { canvas: CanvasView::blank(width, height), ..self.orders },
            composite: CanvasView::blank(width, height),
            pending: None,
            extra: Seq::empty(),
            assembly: Assembly { buf: Seq::empty(), active: false },
            fail_streak: 0,
            ok_streak: 0,
            ..self
        }
    }
}

impl ActiveSession {
    pub closed spec fn wf(self) -> bool {
        self.orders.wf() && self.composite.wf() && self.decomp@.wf()
    }

    /// Start with the PDUs that the connection sequence has left over (the initial
    /// paint) and the share id that it has captured.
    pub fn new(
        settings: ActiveSettings,
        width: u16,
        height: u16,
        io_channel_id: u16,
        user_channel_id: u16,
        share_id: u32,
        buf: Vec<u8>,
    ) -> (r: Self)
        requires
            width * height * 4 <= usize::MAX,
        ensures
            r.wf(),
            r@.decomp == (MppcState {
                history: Seq::new(HISTORY_CAP as nat, |i: int| 0u8),
                offset: 0,
            }),
            r@ == ActiveView::fresh(
                settings,
                width,
                height,
                io_channel_id,
                user_channel_id,
                share_id,
                buf@,
                r@.decomp,
            ),
    {
        let r = ActiveSession {
            settings,
            width,
            height,
            io_channel_id,
            user_channel_id,
            share_id,
            orders: OrderProcessor::new(width, height, ColorDepth::Bpp16),
            composite: CompositeFrame::new(width, height),
            decomp: MppcDecompressor::new(),
            extra: VecDeque::new(),
            buf,
            pending: None,
            order_frag: Vec::new(),
            order_frag_active: false,
            fail_streak: 0,
            ok_streak: 0,
            frames: 0,
            pdus: 0,
            trail: None,
            curtain_applied: false,
        };
        assert(r@.extra =~= Seq::empty());
        r
    }

    /// The desktop as it is shown.
    pub fn composite(&self) -> (r: &CompositeFrame)
        requires
            self.wf(),
        ensures
            r.wf(),
            r@ == self@.composite,
    {
        &self.composite
    }

    /// What comes next. An update that is already decompressed takes priority; then
    /// a complete PDU that is already buffered; and before the session waits, what
    /// changed is shown.
    pub fn next(&mut self) -> (r: Result<Next, Error>)
        requires
            old(self).wf(),
        ensures
            final(self).wf(),
            match r {
                Ok(Next::Frame(action, frame)) => if old(self)@.extra.len() > 0 {
                    &&& action == Action::FastPath
                    &&& frame@ == old(self)@.extra[0]
                    &&& final(self)@ == (ActiveView {
                        extra: old(self)@.extra.skip(1),
                        pdus: old(self)@.pdus.wrapping_add(1),
                        ..old(self)@
                    })
                } else {
                    &&& complete_pdu(old(self)@.buf) == Some((action, frame@, final(self)@.buf))
                    &&& final(self)@ == (ActiveView {
                        buf: final(self)@.buf,
                        pdus: old(self)@.pdus.wrapping_add(1),
                        ..old(self)@
                    })
                },
                Ok(Next::Wait(region)) => {
                    &&& old(self)@.extra.len() == 0
                    &&& pdu_size(old(self)@.buf) is Ok
                    &&& complete_pdu(old(self)@.buf) is None
                    &&& region == old(self)@.pending
                    &&& final(self)@ == old(self)@.shown()
                },
                Err(e) => {
                    &&& old(self)@.extra.len() == 0
                    &&& pdu_size(old(self)@.buf) matches Err(why) && is_protocol(
                        e,
                        "find_size: "@ + why,
                    )
                    &&& final(self)@ == old(self)@
                },
            },
    {
        if let Some(frame) = self.extra.pop_front() {
            self.pdus = self.pdus.wrapping_add(1);
            assert(self@.extra =~= old(self)@.extra.skip(1));
            return Ok(Next::Frame(Action::FastPath, frame));
        }
        match take_pdu(&mut self.buf) {
            Ok(Some((action, frame))) => {
                self.pdus = self.pdus.wrapping_add(1);
                Ok(Next::Frame(action, frame))
            },
            Ok(None) => Ok(Next::Wait(self.show())),
            Err(e) => Err(e),
        }
    }

    /// What changed since the desktop was last shown, which counts as shown.
    fn show(&mut self) -> (r: Option<UpdateRegion>)
        requires
            old(self).wf(),
        ensures
            final(self).wf(),
            r == old(self)@.pending,
            final(self)@ == old(self)@.shown(),
    {
        let region: Option<UpdateRegion> = self.pending;
        self.pending = None;
        if region.is_some() {
            self.frames = self.frames.wrapping_add(1);
        }
        region
    }

    /// Bytes have arrived.
    pub fn received(&mut self, more: &[u8])
        requires
            old(self).wf(),
        ensures
            final(self).wf(),
            final(self)@ == (ActiveView { buf: old(self)@.buf + more@, ..old(self)@ }),
    {
        push_slice(&mut self.buf, more);
    }

    /// Look at a PDU: decompress it, and pick out the drawing orders, which the
    /// decoder would drop.
    pub fn classify(&mut self, action: Action, frame: Vec<u8>) -> (r: FrameKind)
        requires
            old(self).wf(),
        ensures
            final(self).wf(),
            (final(self)@, r@) == old(self)@.classified(action, frame@),
    {
        if action == Action::X224 {
            return FrameKind::Stage(frame);
        }
        let ghost before = self@;
        let frame: Vec<u8> = match maybe_decompress(
            frame.as_slice(),
            &mut self.decomp,
            &mut self.extra,
        ) {
            Decomp::Passthrough => {
                assert(self@.extra =~= before.extra + Seq::<Seq<u8>>::empty());
                frame
            },
            Decomp::Ready(f) => f,
            Decomp::Pending => {
                return FrameKind::Nothing;
            },
        };
        match decode_fastpath_orders(frame.as_slice()) {
            None => FrameKind::Stage(frame),
            Some((frag, data)) => {
                match reassemble_orders(
                    &mut self.order_frag,
                    &mut self.order_frag_active,
                    frag,
                    data,
                ) {
                    Some(stream) => FrameKind::Orders(stream),
                    None => FrameKind::Nothing,
                }
            },
        }
    }

    /// Render a complete stream of drawing orders into the composite.
    pub fn render(&mut self, stream: &[u8]) -> (r: Rendered)
        requires
            old(self).wf(),
        ensures
            final(self).wf(),
            ({
                let (d, orders, outcome) = old(self)@.orders.update(stream@);
                let s = ActiveView { orders, ..old(self)@ };
                if d.ok() {
                    match outcome.dirty {
                        Some(rect) => {
                            &&& r is Quiet
                            &&& final(self)@ == s.order_ok().painted(
                                orders.canvas,
                                region_of(orders.canvas.width, orders.canvas.height, rect),
                            )
                        },
                        None => if old(self)@.settings.force_paint && old(self)@.pdus % 40 == 0 {
                            &&& r == Rendered::Show(s.everything())
                            &&& final(self)@ == (ActiveView {
                                composite: s.blitted(orders.canvas, s.everything()),
                                frames: s.frames.wrapping_add(1),
                                ..s.order_ok()
                            })
                        } else {
                            &&& r is Quiet
                            &&& final(self)@ == s.order_ok()
                        },
                    }
                } else {
                    &&& final(self)@ == s.order_failed()
                    &&& if final(self)@.fail_streak >= ORDER_FAIL_RECONNECT {
                        r matches Rendered::Desync(e) && is_protocol(
                            e,
                            "order stream desync \u{2014} reconnecting to reset MPPC/order state"@,
                        )
                    } else {
                        r == Rendered::Failed(final(self)@.fail_streak)
                    }
                }
            }),
    {
        match self.orders.process_orders(stream) {
            Ok(outcome) => {
                self.ok_streak = count_up(self.ok_streak);
                if self.ok_streak >= ORDER_OK_RESET {
                    self.fail_streak = 0;
                }
                if let Some(rect) = outcome.dirty {
                    let region = order_region(self.orders.canvas(), rect);
                    self.composite.blit(self.orders.canvas(), region);
                    self.pending = union_region(self.pending, region);
                } else if self.settings.force_paint && self.pdus % 40 == 0 {
                    self.frames = self.frames.wrapping_add(1);
                    let all = UpdateRegion::full(self.composite.width(), self.composite.height());
                    self.composite.blit(self.orders.canvas(), all);
                    return Rendered::Show(all);
                }
                Rendered::Quiet
            },
            Err(_) => {
                self.ok_streak = 0;
                self.fail_streak = count_up(self.fail_streak);
                if self.fail_streak >= ORDER_FAIL_RECONNECT {
                    return Rendered::Desync(
                        protocol_error(
                            "order stream desync \u{2014} reconnecting to reset MPPC/order state",
                        ),
                    );
                }
                Rendered::Failed(self.fail_streak)
            },
        }
    }

    /// Show what changed if it is time: at most about sixty times a second even
    /// while more PDUs are buffered.
    pub fn flush(&mut self, since_last_ms: u64) -> (r: Option<UpdateRegion>)
        requires
            old(self).wf(),
        ensures
            final(self).wf(),
            if since_last_ms >= 16 {
                r == old(self)@.pending && final(self)@ == old(self)@.shown()
            } else {
                r is None && final(self)@ == old(self)@
            },
    {
        if since_last_ms >= 16 {
            self.show()
        } else {
            None
        }
    }

    /// The decoder has painted a region of its image.
    pub fn on_graphics<F: FrameView>(&mut self, image: &F, region: UpdateRegion)
        requires
            old(self).wf(),
            image.valid(),
        ensures
            final(self).wf(),
            final(self)@ == (ActiveView {
                frames: old(self)@.frames.wrapping_add(1),
                ..old(self)@.painted(image.shows(), region)
            }),
    {
        self.frames = self.frames.wrapping_add(1);
        self.composite.blit(image, region);
        self.pending = union_region(self.pending, region);
    }

    /// The mouse has moved to a point of the desktop.
    pub fn track_pointer(&mut self, x: u16, y: u16)
        requires
            old(self).wf(),
        ensures
            final(self).wf(),
            final(self)@ == (if old(self)@.settings.cursor_refresh {
                old(self)@.moved_over(x, y)
            } else {
                old(self)@
            }),
    {
        if !self.settings.cursor_refresh {
            return;
        }
        let last_x: u16 = if self.width == 0 {
            0
        } else {
            self.width - 1
        };
        let last_y: u16 = if self.height == 0 {
            0
        } else {
            self.height - 1
        };
        let around = UpdateRegion {
            left: if x >= CURSOR_PAD {
                x - CURSOR_PAD
            } else {
                0
            },
            top: if y >= CURSOR_PAD {
                y - CURSOR_PAD
            } else {
                0
            },
            right: if x as u32 + CURSOR_PAD as u32 <= last_x as u32 {
                x + CURSOR_PAD
            } else {
                last_x
            },
            bottom: if y as u32 + CURSOR_PAD as u32 <= last_y as u32 {
                y + CURSOR_PAD
            } else {
                last_y
            },
        };
        self.trail = union_region(self.trail, around);
    }

    /// The part of the desktop to have repainted because the cursor was there, if
    /// it is time: about eight times a second. A rectangle that is upside down
    /// (the mouse was beyond the desktop) is dropped.
    pub fn take_trail(&mut self, since_last_ms: u64) -> (r: Option<UpdateRegion>)
        requires
            old(self).wf(),
        ensures
            final(self).wf(),
            if old(self)@.settings.cursor_refresh && since_last_ms >= 120 {
                &&& final(self)@ == (ActiveView { trail: None, ..old(self)@ })
                &&& r == (match old(self)@.trail {
                    Some(t) => if t.left <= t.right && t.top <= t.bottom {
                        Some(t)
                    } else {
                        None
                    },
                    None => None,
                })
            } else {
                r is None && final(self)@ == old(self)@
            },
    {
        if !self.settings.cursor_refresh || since_last_ms < 120 {
            return None;
        }
        let trail: Option<UpdateRegion> = self.trail;
        self.trail = None;
        match trail {
            Some(t) => {
                if t.left <= t.right && t.top <= t.bottom {
                    Some(t)
                } else {
                    None
                }
            },
            None => None,
        }
    }

    /// Whether the session waits for the mouse to come to rest.
    pub fn has_trail(&self) -> (r: bool)
        requires
            self.wf(),
        ensures
            r == (self@.settings.cursor_refresh && self@.trail is Some),
    {
        self.settings.cursor_refresh && self.trail.is_some()
    }

    /// The mouse has come to rest: have the whole desktop repainted once, which
    /// clears the cursor stamps that the partial repaints missed.
    pub fn pointer_rested(&mut self) -> (r: UpdateRegion)
        requires
            old(self).wf(),
        ensures
            final(self).wf(),
            final(self)@ == (ActiveView { trail: None, ..old(self)@ }),
            r == UpdateRegion::whole(old(self)@.width, old(self)@.height),
    {
        self.trail = None;
        UpdateRegion::full(self.width, self.height)
    }

    /// The curtain to send to the server, if the one that is wished for is not the
    /// one that was sent last.
    pub fn curtain_change(&mut self, desired: bool) -> (r: Option<bool>)
        requires
            old(self).wf(),
        ensures
            final(self).wf(),
            if old(self)@.settings.curtain && desired != old(self)@.curtain_applied {
                r == Some(desired) && final(self)@ == (ActiveView {
                    curtain_applied: desired,
                    ..old(self)@
                })
            } else {
                r is None && final(self)@ == old(self)@
            },
    {
        if self.settings.curtain && desired != self.curtain_applied {
            self.curtain_applied = desired;
            Some(desired)
        } else {
            None
        }
    }

    /// What is due between two PDUs, in the order of the fields.
    pub fn due(&mut self, since: Elapsed, curtain: bool) -> (r: Due)
        requires
            old(self).wf(),
        ensures
            final(self).wf(),
            r.stats == (since.stats >= 1000),
            r.clipboard == (old(self)@.settings.clipboard && since.clipboard >= 700),
            r.file == old(self)@.settings.clipboard,
            r.curtain == (if old(self)@.settings.curtain && curtain
                != old(self)@.curtain_applied {
                Some(curtain)
            } else {
                None
            }),
            r.show == (if since.shown >= 16 {
                old(self)@.pending
            } else {
                None
            }),
            final(self)@ == ({
                let s = ActiveView {
                    curtain_applied: if old(self)@.settings.curtain {
                        curtain
                    } else {
                        old(self)@.curtain_applied
                    },
                    ..old(self)@
                };
                if since.shown >= 16 {
                    s.shown()
                } else {
                    s
                }
            }),
    {
        let stats: bool = since.stats >= 1000;
        let clipboard: bool = self.polls_clipboard(since.clipboard);
        let file: bool = self.settings.clipboard;
        let change: Option<bool> = self.curtain_change(curtain);
        let show: Option<UpdateRegion> = self.flush(since.shown);
        Due { stats, clipboard, file, curtain: change, show }
    }

    /// Whether it is time to look at the local clipboard.
    pub fn polls_clipboard(&self, since_last_ms: u64) -> (r: bool)
        requires
            self.wf(),
        ensures
            r == (self@.settings.clipboard && since_last_ms >= 700),
    {
        self.settings.clipboard && since_last_ms >= 700
    }

    /// The server reactivates. The PDU that said so is put back in front of the
    /// stream if it is the Demand Active itself; its share id, if it carries one,
    /// is the one to echo from now on. The bytes go to the capability exchange.
    pub fn reactivate(&mut self, frame: &[u8], refeed: bool, share_id: Option<u32>) -> (buf: Vec<u8>)
        requires
            old(self).wf(),
        ensures
            final(self).wf(),
            buf@ == (if refeed {
                frame@ + old(self)@.buf
            } else {
                old(self)@.buf
            }),
            final(self)@ == (ActiveView {
                buf: Seq::empty(),
                share_id: match share_id {
                    Some(id) => id,
                    None => old(self)@.share_id,
                },
                ..old(self)@
            }),
    {
        if let Some(id) = share_id {
            self.share_id = id;
        }
        let mut buf: Vec<u8> = Vec::new();
        if refeed {
            push_slice(&mut buf, frame);
        }
        push_slice(&mut buf, self.buf.as_slice());
        self.buf = Vec::new();
        assert(buf@ =~= if refeed {
            frame@ + old(self)@.buf
        } else {
            old(self)@.buf
        });
        assert(self@.buf =~= Seq::empty());
        buf
    }

    /// The capability exchange of a reactivation is done; `buf` is what it has left
    /// over.
    pub fn reactivated(
        &mut self,
        width: u16,
        height: u16,
        io_channel_id: u16,
        user_channel_id: u16,
        buf: Vec<u8>,
    )
        requires
            old(self).wf(),
            width * height * 4 <= usize::MAX,
        ensures
            final(self).wf(),
            final(self)@ == (ActiveView {
                buf: buf@,
                ..old(self)@.reactivated(width, height, io_channel_id, user_channel_id)
            }),
    {
        self.width = width;
        self.height = height;
        self.io_channel_id = io_channel_id;
        self.user_channel_id = user_channel_id;
        self.orders.resize(width, height);
        self.composite.resize(width, height);
        self.pending = None;
        self.extra = VecDeque::new();
        self.order_frag = Vec::new();
        self.order_frag_active = false;
        self.fail_streak = 0;
        self.ok_streak = 0;
        self.buf = buf;
        assert(self@.extra =~= Seq::empty());
        assert(self@.assembly.buf =~= Seq::empty());
    }

    /// The size of the desktop.
    pub fn desktop(&self) -> (r: (u16, u16))
        ensures
            r == (self@.width, self@.height),
    {
        (self.width, self.height)
    }

    /// The ids of the user channel and the I/O channel.
    pub fn channel_ids(&self) -> (r: (u16, u16))
        ensures
            r == (self@.user_channel_id, self@.io_channel_id),
    {
        (self.user_channel_id, self.io_channel_id)
    }

    /// The share id to echo.
    pub fn share_id(&self) -> (r: u32)
        ensures
            r == self@.share_id,
    {
        self.share_id
    }

    /// (graphics updates shown, PDUs processed), for diagnostics.
    pub fn counters(&self) -> (r: (u64, u64))
        ensures
            r == (self@.frames, self@.pdus),
    {
        (self.frames, self.pdus)
    }
}

/// What the text of a decoder's error means: after a grant the server restarts the
/// session with PDUs that the decoder does not handle; those are skipped.
pub open spec fn is_benign(text: Seq<char>) -> bool {
    occurs(text, "unhandled PDU"@)
}

/// The error that ends the session when the decoder fails, unless it is benign.
pub fn stage_failure(text: &str) -> (r: Option<Error>)
    ensures
        match r {
            Some(e) => !is_benign(text@) && is_protocol(e, "active-stage: "@ + text@),
            None => is_benign(text@),
        },
{
    let chars: Vec<char> = chars_of(text);
    let needle: Vec<char> = chars_of("unhandled PDU");
    if contains(chars.as_slice(), needle.as_slice()) {
        None
    } else {
        Some(protocol_error_about("active-stage: ", text))
    }
}

/// What to do when the session becomes active, before PDUs are read.
#[derive(Debug, Clone, Copy, PartialEq, Eq, Structural)]
pub enum Opening {
    /// Send an empty persistent key list.
    KeyList,
    /// Say that the session is being attached.
    Attaching,
    /// Send an arbitration event of this type.
    Arbitrate(u32),
    /// Send the control messages of the desktop handshake.
    DesktopControls,
    /// Allow output and have the whole desktop painted.
    Repaint,
}

/// Which opening messages are wished for.
#[derive(Debug, Clone, Copy, PartialEq, Eq, Structural)]
pub struct OpeningSettings {
    pub key_list: bool,
    pub arbitration: bool,
    pub desktop_controls: bool,
    pub no_repaint: bool,
}

/// The type of the arbitration event to open with: the configured one, 1 where
/// none or nonsense is configured, none at all where 0 is.
pub open spec fn opening_event(arbitration: bool, configured: Option<Seq<char>>) -> Option<u32> {
    if !arbitration || configured == Some("0"@) {
        None
    } else {
        match configured {
            Some(t) => match unsigned32(t) {
                Some(v) => Some(v),
                None => Some(1),
            },
            None => Some(1),
        }
    }
}

fn event_to_open_with(arbitration: bool, configured: Option<&str>) -> (r: Option<u32>)
    ensures
        r == opening_event(
            arbitration,
            match configured {
                Some(t) => Some(t@),
                None => None,
            },
        ),
{
    if !arbitration {
        return None;
    }
    match configured {
        Some(t) => {
            if same_text(t, "0") {
                return None;
            }
            match parse_u32(chars_of(t).as_slice()) {
                Some(v) => Some(v),
                None => Some(1),
            }
        },
        None => Some(1),
    }
}

/// The opening, step by step.
pub open spec fn openings(s: OpeningSettings, event: Option<u32>) -> Seq<Opening> {
    let a = if s.key_list {
        seq![Opening::KeyList]
    } else {
        Seq::empty()
    };
    let b = a.push(Opening::Attaching);
    let c = match event {
        Some(t) => b.push(Opening::Arbitrate(t)),
        None => b,
    };
    let d = if s.desktop_controls {
        c.push(Opening::DesktopControls)
    } else {
        c
    };
    if s.no_repaint {
        d
    } else {
        d.push(Opening::Repaint)
    }
}

/// What to do, in order, when the session becomes active. `event` is the configured
/// type of the arbitration event.
pub fn opening(s: OpeningSettings, event: Option<&str>) -> (r: Vec<Opening>)
    ensures
        r@ == openings(
            s,
            opening_event(
                s.arbitration,
                match event {
                    Some(t) => Some(t@),
                    None => None,
                },
            ),
        ),
{
    let mut v: Vec<Opening> = Vec::new();
    if s.key_list {
        v.push(Opening::KeyList);
    }
    v.push(Opening::Attaching);
    if let Some(t) = event_to_open_with(s.arbitration, event) {
        v.push(Opening::Arbitrate(t));
    }
    if s.desktop_controls {
        v.push(Opening::DesktopControls);
    }
    if !s.no_repaint {
        v.push(Opening::Repaint);
    }
    assert(v@ =~= openings(
        s,
        opening_event(
            s.arbitration,
            match event {
                Some(t) => Some(t@),
                None => None,
            },
        ),
    ));
    v
}

/// What an order stream paints is shown: a pixel at which the composite shows what
/// the canvas held before the stream, shows what the canvas holds after it.
pub proof fn law_orders_reach_the_composite(s: ActiveView, stream: Seq<u8>, x: int, y: int)
    requires
        s.orders.canvas.width == s.composite.width,
        s.orders.canvas.height == s.composite.height,
        s.composite.on(x, y),
        (s.composite.at)(x, y) == (s.orders.canvas.at)(x, y),
    ensures
        ({
            let (d, orders, outcome) = s.orders.update(stream);
            d.ok() ==> match outcome.dirty {
                Some(rect) => (s.painted(
                    orders.canvas,
                    region_of(orders.canvas.width, orders.canvas.height, rect),
                ).composite.at)(x, y) == (orders.canvas.at)(x, y),
                None => (s.composite.at)(x, y) == (orders.canvas.at)(x, y),
            }
        }),
{
    let (d, orders, outcome) = s.orders.update(stream);
    law_dirty_covers_changes(s.orders, stream);
    law_update_keeps_size(s.orders, stream);
    if d.ok() {
        if let Some(rect) = outcome.dirty {
            law_composite_follows_the_canvas(
                s.composite,
                s.orders.canvas,
                orders.canvas,
                rect,
                x,
                y,
            );
        }
    }
}

/// The session after order streams with these outcomes (true: decoded).
pub open spec fn after_streams(s: ActiveView, decoded: Seq<bool>) -> ActiveView
    decreases decoded.len(),
{
    if decoded.len() == 0 {
        s
    } else {
        let before = after_streams(s, decoded.drop_last());
        if decoded.last() {
            before.order_ok()
        } else {
            before.order_failed()
        }
    }
}

/// How many streams failed.
pub open spec fn failures(decoded: Seq<bool>) -> nat
    decreases decoded.len(),
{
    if decoded.len() == 0 {
        0
    } else {
        failures(decoded.drop_last()) + if decoded.last() {
            0nat
        } else {
            1nat
        }
    }
}

/// Whether streams from `i` on, as many as make up for failures, were all decoded.
pub open spec fn clean_run(decoded: Seq<bool>, i: int) -> bool {
    forall|j: int| i <= j < i + ORDER_OK_RESET ==> decoded[j]
}

/// How many streams were decoded since the last failure.
pub open spec fn clean_tail(decoded: Seq<bool>) -> nat
    decreases decoded.len(),
{
    if decoded.len() == 0 || !decoded.last() {
        0
    } else {
        clean_tail(decoded.drop_last()) + 1
    }
}

proof fn lemma_clean_tail(decoded: Seq<bool>)
    ensures
        clean_tail(decoded) <= decoded.len(),
        forall|j: int| decoded.len() - clean_tail(decoded) <= j < decoded.len() ==> decoded[j],
    decreases decoded.len(),
{
    if decoded.len() > 0 && decoded.last() {
        lemma_clean_tail(decoded.drop_last());
        assert forall|j: int|
            decoded.len() - clean_tail(decoded) <= j < decoded.len() implies decoded[j] by {
            if j < decoded.len() - 1 {
                assert(decoded.drop_last()[j] == decoded[j]);
            }
        }
    }
}

/// Every pixel that changes on the composite is pending until it is shown: what is
/// painted from a region of the desktop is pending afterwards, and what was pending
/// before stays so.
pub proof fn law_every_change_is_shown(
    s: ActiveView,
    from: CanvasView,
    region: UpdateRegion,
    x: int,
    y: int,
)
    requires
        region.left <= region.right,
        region.top <= region.bottom,
        region.left < s.composite.width,
        region.top < s.composite.height,
    ensures
        ({
            let t = s.painted(from, region);
            &&& (t.composite.at)(x, y) != (s.composite.at)(x, y) ==> t.pending->Some_0.contains(x, y)
            &&& s.pending matches Some(p) ==> p.contains(x, y) ==> t.pending->Some_0.contains(x, y)
        }),
{
    let t = s.painted(from, region);
    if let Some(p) = s.pending {
        if p.contains(x, y) || region.contains(x, y) {
            law_joined_regions_cover_both(p, region, x, y);
        }
    }
    assert((t.composite.at)(x, y) != (s.composite.at)(x, y) ==> region.contains(x, y));
}

/// A stream that is out of sync is found out: it decodes to a mix of failures and
/// the odd stray success, and as long as no long run of streams is clean, every
/// failure counts towards reconnecting.
pub proof fn law_stray_successes_do_not_hide_a_desync(s: ActiveView, decoded: Seq<bool>)
    requires
        s.ok_streak == 0,
        s.fail_streak == 0,
        decoded.len() < u32::MAX,
        forall|i: int| 0 <= i <= decoded.len() - ORDER_OK_RESET ==> !#[trigger] clean_run(decoded, i),
    ensures
        after_streams(s, decoded).fail_streak == failures(decoded),
        after_streams(s, decoded).ok_streak == clean_tail(decoded),
        failures(decoded) <= decoded.len(),
    decreases decoded.len(),
{
    if decoded.len() > 0 {
        let rest = decoded.drop_last();
        assert forall|i: int| 0 <= i <= rest.len() - ORDER_OK_RESET implies !#[trigger] clean_run(
            rest,
            i,
        ) by {
            assert(!clean_run(decoded, i));
            let j = choose|j: int| i <= j < i + ORDER_OK_RESET && !decoded[j];
            assert(rest[j] == decoded[j]);
        }
        law_stray_successes_do_not_hide_a_desync(s, rest);
        lemma_clean_tail(rest);
        lemma_clean_tail(decoded);
        if clean_tail(decoded) >= ORDER_OK_RESET {
            assert(clean_run(decoded, decoded.len() - ORDER_OK_RESET));
        }
    }
}

/// A long enough run of clean streams makes up for every failure before it.
pub proof fn law_clean_streams_clear_the_failures(s: ActiveView)
    ensures
        ({
            let clean = Seq::new(ORDER_OK_RESET as nat, |i: int| true);
            after_streams(s, clean).fail_streak == 0
        }),
{
    let clean = Seq::new(ORDER_OK_RESET as nat, |i: int| true);
    reveal_with_fuel(after_streams, 9);
    let c7 = clean.drop_last();
    let c6 = c7.drop_last();
    let c5 = c6.drop_last();
    let c4 = c5.drop_last();
    let c3 = c4.drop_last();
    let c2 = c3.drop_last();
    let c1 = c2.drop_last();
    let c0 = c1.drop_last();
    assert(c0.len() == 0);
}

/// A reactivation leaves nothing of the old desktop: nothing is pending, queued or
/// half assembled, and the frame is blank. The history of the compressed stream and
/// the caches stay.
pub proof fn law_reactivation_keeps_only_history_and_caches(
    s: ActiveView,
    width: u16,
    height: u16,
    io_channel_id: u16,
    user_channel_id: u16,
)
    ensures
        ({
            let t = s.reactivated(width, height, io_channel_id, user_channel_id);
            &&& t.composite == CanvasView::blank(width, height)
            &&& t.orders.canvas == CanvasView::blank(width, height)
            &&& t.pending is None
            &&& t.extra.len() == 0
            &&& !t.assembly.active
            &&& t.fail_streak == 0
            &&& t.decomp == s.decomp
            &&& t.orders.caches == s.orders.caches
        }),
{
}

} // verus!
