//! What the window does about each event, and how it is painted.

use crate::viewer::cursor::{cursor_at, draw_cursor, hide_painted_cursor, CursorState};
use crate::viewer::input::{attention, key_of, Controls, InputEvent, MouseAction, MOVE_MS};
use crate::viewer::pacing::{RepaintCap, FRAME_MS};
use crate::viewer::paint::{
    copied, draw_desktop, draw_desktop_scaled, fits, scaled, screen, shows, Sample,
    Screen,
};
use crate::viewer::state::SharedFrame;
use crate::viewer::toolbar::{hit, hit_test, labels_fit, ToolbarAction, TOOLBAR_H};
use vstd::prelude::*;

verus! {

/// An event of the window. Times are milliseconds since the thing last happened;
/// places are whole pixels from the window's upper left corner.
#[derive(Debug, Clone, Copy)]
pub enum WindowInput {
    CloseRequested,
    Resized,
    /// The mouse moved to `(x, y)`, which is `desk` on the remote desktop.
    Moved { x: u32, y: i64, desk: (u16, u16), since_move: u64 },
    Entered,
    Left,
    Button { action: MouseAction, pressed: bool, win_w: u32 },
    Wheel { units: i16 },
    Modifiers { ctrl: bool, alt: bool },
    Key { pressed: bool, end_key: bool, scancode: Option<u32> },
    RedrawRequested { since_paint: u64 },
}

/// What is to be done about an event.
#[derive(Debug)]
pub struct Reaction {
    /// Stop the session and close the window.
    pub close: bool,
    /// Ask for a repaint.
    pub redraw: bool,
    /// Paint now.
    pub paint: bool,
    /// Show the local cursor.
    pub show_cursor: bool,
    /// The move counts: the next is measured from it.
    pub moved: bool,
    /// Run a toolbar button.
    pub button: Option<ToolbarAction>,
    /// Send input to the remote side.
    pub send: Vec<InputEvent>,
}

/// A reaction, its events as a sequence.
#[verifier::ext_equal]
pub struct ReactionView {
    pub close: bool,
    pub redraw: bool,
    pub paint: bool,
    pub show_cursor: bool,
    pub moved: bool,
    pub button: Option<ToolbarAction>,
    pub send: Seq<InputEvent>,
}

impl View for Reaction {
    type V = ReactionView;

    open spec fn view(&self) -> ReactionView {
        ReactionView {
            close: self.close,
            redraw: self.redraw,
            paint: self.paint,
            show_cursor: self.show_cursor,
            moved: self.moved,
            button: self.button,
            send: self.send@,
        }
    }
}

/// Nothing is to be done.
pub open spec fn idle() -> ReactionView {
    ReactionView {
        close: false,
        redraw: false,
        paint: false,
        show_cursor: false,
        moved: false,
        button: None,
        send: Seq::empty(),
    }
}

fn nothing() -> (r: Reaction)
    ensures
        r@ == idle(),
{
    Reaction {
        close: false,
        redraw: false,
        paint: false,
        show_cursor: false,
        moved: false,
        button: None,
        send: Vec::new(),
    }
}

/// What the window remembers between events.
#[derive(Debug, Clone, Copy, PartialEq, Eq)]
pub struct WindowState {
    pub controls: Controls,
    pub cap: RepaintCap,
    /// The last place on the remote desktop.
    pub last_cursor: (u16, u16),
    /// The mouse in the window.
    pub mouse: (u32, i64),
    /// Whether the mouse is over the window.
    pub inside: bool,
    pub ctrl: bool,
    pub alt: bool,
}

impl WindowState {
    pub fn new() -> (s: Self)
        ensures
            s == (WindowState {
                controls: Controls {
                    view_only: false,
                    curtain: false,
                    fullscreen: false,
                    recording: false,
                },
                cap: RepaintCap { pending: false },
                last_cursor: (0, 0),
                mouse: (0, 0),
                inside: false,
                ctrl: false,
                alt: false,
            }),
    {
        WindowState {
            controls: Controls::new(),
            cap: RepaintCap::new(),
            last_cursor: (0, 0),
            mouse: (0, 0),
            inside: false,
            ctrl: false,
            alt: false,
        }
    }

    /// What the window remembers after an event.
    pub open spec fn next(self, input: WindowInput) -> WindowState {
        match input {
            WindowInput::Moved { x, y, desk, since_move } => WindowState {
                mouse: (x, y),
                last_cursor: if y < TOOLBAR_H {
                    self.last_cursor
                } else {
                    desk
                },
                ..self
            },
            WindowInput::Entered => WindowState { inside: true, ..self },
            WindowInput::Left => WindowState { inside: false, ..self },
            WindowInput::Modifiers { ctrl, alt } => WindowState { ctrl, alt, ..self },
            WindowInput::RedrawRequested { since_paint } => WindowState {
                cap: RepaintCap { pending: since_paint < FRAME_MS },
                ..self
            },
            _ => self,
        }
    }

    /// What is to be done about an event, given the widths of the button labels.
    pub open spec fn reaction(self, input: WindowInput, widths: Seq<u32>) -> ReactionView {
        match input {
            WindowInput::CloseRequested => ReactionView { close: true, ..idle() },
            WindowInput::Resized => ReactionView { redraw: true, ..idle() },
            // Over the toolbar the local cursor shows and nothing is sent.
            WindowInput::Moved { x, y, desk, since_move } => if y < TOOLBAR_H {
                ReactionView { redraw: true, show_cursor: true, ..idle() }
            } else {
                ReactionView {
                    redraw: true,
                    moved: since_move >= MOVE_MS,
                    send: if since_move >= MOVE_MS {
                        self.controls.passed(
                            seq![
                                InputEvent::Mouse {
                                    action: MouseAction::Move,
                                    down: false,
                                    units: 0,
                                    x: desk.0,
                                    y: desk.1,
                                },
                            ],
                        )
                    } else {
                        Seq::empty()
                    },
                    ..idle()
                }
            },
            WindowInput::Entered => ReactionView { redraw: true, ..idle() },
            WindowInput::Left => ReactionView { redraw: true, show_cursor: true, ..idle() },
            // A click on the toolbar stays local.
            WindowInput::Button { action, pressed, win_w } => if self.mouse.1 < TOOLBAR_H {
                ReactionView {
                    button: if pressed && action == MouseAction::Left && self.mouse.1 >= 0 {
                        hit(win_w, widths, 0, self.mouse.0 as int, self.mouse.1 as int)
                    } else {
                        None
                    },
                    ..idle()
                }
            } else {
                ReactionView {
                    send: self.controls.passed(
                        seq![
                            InputEvent::Mouse {
                                action,
                                down: pressed,
                                units: 0,
                                x: self.last_cursor.0,
                                y: self.last_cursor.1,
                            },
                        ],
                    ),
                    ..idle()
                }
            },
            WindowInput::Wheel { units } => ReactionView {
                send: self.controls.passed(
                    seq![
                        InputEvent::Mouse {
                            action: MouseAction::Wheel,
                            down: false,
                            units,
                            x: 0,
                            y: 0,
                        },
                    ],
                ),
                ..idle()
            },
            WindowInput::Modifiers { ctrl, alt } => idle(),
            WindowInput::Key { pressed, end_key, scancode } => ReactionView {
                send: self.controls.passed(
                    if pressed && self.ctrl && self.alt && end_key {
                        attention()
                    } else {
                        match scancode {
                            Some(sc) => seq![key_of(sc, !pressed)],
                            None => Seq::empty(),
                        }
                    },
                ),
                ..idle()
            },
            WindowInput::RedrawRequested { since_paint } => ReactionView {
                paint: since_paint >= FRAME_MS,
                ..idle()
            },
        }
    }

    /// Handle an event; `widths` are those of the toolbar's button labels.
    pub fn window_event(&mut self, input: WindowInput, widths: &[u32]) -> (r: Reaction)
        requires
            labels_fit(widths@),
        ensures
            *final(self) == old(self).next(input),
            r@ == old(self).reaction(input, widths@),
    {
        let mut r: Reaction = nothing();
        match input {
            WindowInput::CloseRequested => {
                r.close = true;
            },
            WindowInput::Resized => {
                r.redraw = true;
            },
            WindowInput::Moved { x, y, desk, since_move } => {
                self.mouse = (x, y);
                r.redraw = true;
                if y < TOOLBAR_H as i64 {
                    r.show_cursor = true;
                } else {
                    self.last_cursor = desk;
                    let (moved, send) = self.controls.on_move(since_move, desk.0, desk.1);
                    r.moved = moved;
                    r.send = send;
                }
            },
            WindowInput::Entered => {
                self.inside = true;
                r.redraw = true;
            },
            WindowInput::Left => {
                self.inside = false;
                r.show_cursor = true;
                r.redraw = true;
            },
            WindowInput::Button { action, pressed, win_w } => {
                if self.mouse.1 < TOOLBAR_H as i64 {
                    if pressed && action == MouseAction::Left {
                        r.button = hit_test(self.mouse.0, self.mouse.1, win_w, widths);
                    }
                } else {
                    r.send = self.controls.on_button(
                        action,
                        pressed,
                        self.last_cursor.0,
                        self.last_cursor.1,
                    );
                }
            },
            WindowInput::Wheel { units } => {
                r.send = self.controls.on_wheel(units);
            },
            WindowInput::Modifiers { ctrl, alt } => {
                self.ctrl = ctrl;
                self.alt = alt;
            },
            WindowInput::Key { pressed, end_key, scancode } => {
                r.send = self.controls.on_key(pressed, self.ctrl, self.alt, end_key, scancode);
            },
            WindowInput::RedrawRequested { since_paint } => {
                r.paint = self.cap.request(since_paint);
            },
        }
        r
    }
}

/// Nothing that happens over the toolbar reaches the remote side through the mouse.
pub proof fn law_toolbar_clicks_stay_local(s: WindowState, input: WindowInput, widths: Seq<u32>)
    requires
        match input {
            WindowInput::Moved { x, y, desk, since_move } => y < TOOLBAR_H,
            WindowInput::Button { action, pressed, win_w } => s.mouse.1 < TOOLBAR_H,
            _ => false,
        },
    ensures
        s.reaction(input, widths).send.len() == 0,
        s.next(input).last_cursor == s.last_cursor,
{
}

/// In a view-only window no event sends input.
pub proof fn law_view_only_windows_send_nothing(
    s: WindowState,
    input: WindowInput,
    widths: Seq<u32>,
)
    requires
        s.controls.view_only,
    ensures
        s.reaction(input, widths).send.len() == 0,
{
}

/// The height of the toolbar in a window.
pub open spec fn bar_of(win_h: u32) -> int {
    if win_h < TOOLBAR_H {
        win_h as int
    } else {
        TOOLBAR_H as int
    }
}

/// The height that is left for the desktop, at least one row.
pub open spec fn desk_of(win_h: u32) -> int {
    if win_h <= TOOLBAR_H {
        1
    } else {
        win_h - TOOLBAR_H
    }
}

/// The height of the toolbar in a window.
pub fn bar_height(win_h: u32) -> (r: u32)
    ensures
        r == bar_of(win_h),
{
    TOOLBAR_H.min(win_h)
}

/// The height that is left for the desktop, at least one row.
pub fn desk_height(win_h: u32) -> (r: u32)
    ensures
        r == desk_of(win_h),
{
    if win_h <= TOOLBAR_H {
        1
    } else {
        win_h - TOOLBAR_H
    }
}

impl Screen {
    /// The desktop below the toolbar: copied where its size is that of the window's
    /// free part, else scaled.
    pub open spec fn picture(
        self,
        src: Seq<u8>,
        fb_w: u32,
        fb_h: u32,
        cols: Seq<Sample>,
        rows: Seq<Sample>,
    ) -> Screen {
        let bar = bar_of(self.height);
        self.over(
            0,
            bar,
            self.width as int,
            self.height as int,
            if self.width == fb_w && desk_of(self.height) == fb_h {
                copied(src, bar, fb_w as int)
            } else {
                scaled(src, bar, fb_w as int, cols, rows)
            },
        )
    }
}

/// Whether there is a sound sample for each column and for each row below the toolbar.
pub open spec fn samples_fit(
    win_w: u32,
    win_h: u32,
    cols: Seq<Sample>,
    rows: Seq<Sample>,
) -> bool {
    &&& cols.len() == win_w
    &&& rows.len() == win_h - bar_of(win_h)
    &&& forall|i: int| 0 <= i < cols.len() ==> #[trigger] cols[i].valid()
    &&& forall|i: int| 0 <= i < rows.len() ==> #[trigger] rows[i].valid()
}

/// Paint the desktop below the toolbar.
pub fn render_picture(
    buf: &mut [u32],
    win_w: u32,
    win_h: u32,
    frame: &SharedFrame,
    cols: &[Sample],
    rows: &[Sample],
)
    requires
        fits(old(buf)@, win_w, win_h),
        samples_fit(win_w, win_h, cols@, rows@),
    ensures
        shows(
            old(buf)@,
            final(buf)@,
            win_w,
            win_h,
            screen(old(buf)@, win_w, win_h).picture(
                frame.rgba@,
                frame.width,
                frame.height,
                cols@,
                rows@,
            ),
        ),
{
    let bar: u32 = bar_height(win_h);
    if win_w == frame.width && desk_height(win_h) == frame.height {
        draw_desktop(buf, win_w, win_h, bar, frame.rgba.as_slice());
    } else {
        draw_desktop_scaled(
            buf,
            win_w,
            win_h,
            bar,
            frame.rgba.as_slice(),
            frame.width,
            cols,
            rows,
        );
    }
}

impl Screen {
    /// The remote cursor at the mouse, in place of the one that the server painted.
    pub open spec fn pointer(self, cursor: CursorState, mx: int, my: int) -> Screen {
        let ox = mx - cursor.hotspot_x;
        let oy = my - cursor.hotspot_y;
        self.hidden(mx, my, bar_of(self.height)).over(
            ox,
            oy,
            ox + cursor.width,
            oy + cursor.height,
            cursor_at(cursor.rgba@, ox, oy, cursor.width as int),
        )
    }
}

/// Paint the remote cursor at the mouse.
pub fn render_pointer(
    buf: &mut [u32],
    win_w: u32,
    win_h: u32,
    cursor: &CursorState,
    mx: i32,
    my: i32,
)
    requires
        fits(old(buf)@, win_w, win_h),
        win_w > 0,
        win_h > TOOLBAR_H,
    ensures
        shows(
            old(buf)@,
            final(buf)@,
            win_w,
            win_h,
            screen(old(buf)@, win_w, win_h).pointer(*cursor, mx as int, my as int),
        ),
{
    let bar: u32 = bar_height(win_h);
    hide_painted_cursor(buf, win_w, win_h, bar, mx, my);
    draw_cursor(buf, win_w, win_h, cursor, mx, my);
}

} // verus!
