//! The toolbar at the top of the window: a status line on the left, a row of buttons
//! on the right.
//!
//! What is drawn is planned first, as a list of boxes and texts, from the widths that
//! the texts have in the font at hand; the plan is then drawn with that font.

use crate::text::{decimal, push_decimal, push_text, strings_of};
use crate::viewer::paint::{draw_text_scaled, fill_rect, fits, screen, shows, Screen};
use vstd::prelude::*;

verus! {

/// Height of the toolbar in pixels. The remote desktop is shown below it.
pub const TOOLBAR_H: u32 = 30;

/// Horizontal padding inside a button.
pub const PAD: u32 = 11;

pub const BAR_BG: u32 = 0x002D_2D30;

pub const HAIRLINE: u32 = 0x0020_2022;

pub const TEXT: u32 = 0x00E0_E0E0;

pub const BTN_BG: u32 = 0x003E_3E42;

pub const BTN_TEXT: u32 = 0x00F0_F0F0;

pub const ACCENT_OK: u32 = 0x0040_C040;

pub const ACCENT_BUSY: u32 = 0x00D0_A030;

pub const REC_RED: u32 = 0x00D0_3030;

pub const BTN_ACTIVE: u32 = 0x0030_5A8C;

/// Between the parts of the status line.
pub const SEPARATOR: &'static str = "   \u{00b7}   ";

/// A clickable toolbar action.
#[derive(Debug, Clone, Copy, PartialEq, Eq, Structural)]
pub enum ToolbarAction {
    CtrlAltDel,
    SendFile,
    ToggleCurtain,
    ToggleViewOnly,
    ToggleRecord,
    ToggleFullscreen,
    Disconnect,
}

/// How many buttons there are.
pub const BUTTON_COUNT: usize = 7;

/// The action of a button, counted from the right.
pub open spec fn action_of(k: int) -> ToolbarAction {
    if k == 0 {
        ToolbarAction::Disconnect
    } else if k == 1 {
        ToolbarAction::ToggleFullscreen
    } else if k == 2 {
        ToolbarAction::ToggleRecord
    } else if k == 3 {
        ToolbarAction::ToggleViewOnly
    } else if k == 4 {
        ToolbarAction::ToggleCurtain
    } else if k == 5 {
        ToolbarAction::SendFile
    } else {
        ToolbarAction::CtrlAltDel
    }
}

/// The action of a button, counted from the right.
pub fn button_action(k: usize) -> (r: ToolbarAction)
    requires
        k < BUTTON_COUNT,
    ensures
        r == action_of(k as int),
{
    match k {
        0 => ToolbarAction::Disconnect,
        1 => ToolbarAction::ToggleFullscreen,
        2 => ToolbarAction::ToggleRecord,
        3 => ToolbarAction::ToggleViewOnly,
        4 => ToolbarAction::ToggleCurtain,
        5 => ToolbarAction::SendFile,
        _ => ToolbarAction::CtrlAltDel,
    }
}

/// Dynamic status shown on the left of the bar.
pub struct Status<'a> {
    pub host: &'a str,
    pub mode: &'a str,
    pub state: &'a str,
    pub connected: bool,
    pub fps: u32,
    pub bytes_per_sec: u64,
    pub recording: bool,
    pub curtain: bool,
    /// Transport-security summary; hidden when empty.
    pub security: &'a str,
    /// Whether the link is encrypted and the server verified.
    pub secure: bool,
    /// Whether the link is encrypted.
    pub encrypted: bool,
    pub view_only: bool,
}

/// A bandwidth in words. From a mebibyte per second on, `mebibytes` is the number that
/// is shown.
pub open spec fn bandwidth(bps: u64, mebibytes: Seq<char>) -> Seq<char> {
    if bps >= 1_048_576 {
        mebibytes + " MB/s"@
    } else if bps >= 1024 {
        decimal((bps / 1024) as nat) + " KB/s"@
    } else {
        decimal(bps as nat) + " B/s"@
    }
}

/// Human-readable bandwidth, such as "1.4 MB/s" or "320 KB/s".
pub fn fmt_bw(bps: u64, mebibytes: &str) -> (r: String)
    ensures
        r@ == bandwidth(bps, mebibytes@),
{
    let mut s = String::new();
    if bps >= 1_048_576 {
        push_text(&mut s, mebibytes);
        assert(s@ =~= mebibytes@);
        push_text(&mut s, " MB/s");
    } else if bps >= 1024 {
        push_decimal(&mut s, bps / 1024);
        assert(s@ =~= decimal((bps / 1024) as nat));
        push_text(&mut s, " KB/s");
    } else {
        push_decimal(&mut s, bps);
        assert(s@ =~= decimal(bps as nat));
        push_text(&mut s, " B/s");
    }
    s
}

/// The status line: host, mode, state, frame rate and bandwidth.
pub open spec fn status_line(st: Status, mebibytes: Seq<char>) -> Seq<char> {
    st.host@ + SEPARATOR@ + st.mode@ + SEPARATOR@ + st.state@ + SEPARATOR@ + decimal(
        st.fps as nat,
    ) + " fps"@ + SEPARATOR@ + bandwidth(st.bytes_per_sec, mebibytes)
}

/// The status line.
pub fn status_text(st: &Status, mebibytes: &str) -> (r: String)
    ensures
        r@ == status_line(*st, mebibytes@),
{
    let mut s = String::new();
    push_text(&mut s, st.host);
    assert(s@ =~= st.host@);
    push_text(&mut s, SEPARATOR);
    push_text(&mut s, st.mode);
    push_text(&mut s, SEPARATOR);
    push_text(&mut s, st.state);
    push_text(&mut s, SEPARATOR);
    push_decimal(&mut s, st.fps as u64);
    push_text(&mut s, " fps");
    push_text(&mut s, SEPARATOR);
    let bw: String = fmt_bw(st.bytes_per_sec, mebibytes);
    push_text(&mut s, bw.as_str());
    s
}

/// A button's place in the window.
#[derive(Debug, Clone, Copy, PartialEq, Eq, Structural)]
pub struct Button {
    pub action: ToolbarAction,
    pub x: u32,
    pub y: u32,
    pub w: u32,
    pub h: u32,
}

impl Button {
    pub open spec fn covers(self, x: int, y: int) -> bool {
        self.x <= x < self.x + self.w && self.y <= y < self.y + self.h
    }
}

pub open spec fn less(a: int, b: int) -> int {
    if b <= a {
        a - b
    } else {
        0
    }
}

/// Where a button ends: four pixels from the window's edge, or six from the button to
/// its right.
pub open spec fn right_of(win_w: u32, widths: Seq<u32>, k: int) -> int
    decreases k,
{
    if k <= 0 {
        less(win_w as int, 4)
    } else {
        less(left_of(win_w, widths, k - 1), 6)
    }
}

/// Where a button starts, as wide as its label with padding on both sides.
pub open spec fn left_of(win_w: u32, widths: Seq<u32>, k: int) -> int
    decreases k,
{
    if k <= 0 {
        less(less(win_w as int, 4), widths[0] + 2 * PAD)
    } else {
        less(less(left_of(win_w, widths, k - 1), 6), widths[k] + 2 * PAD)
    }
}

/// The button in a place of the row, counted from the right, given the widths of the
/// labels.
pub open spec fn button_at(win_w: u32, widths: Seq<u32>, k: int) -> Button {
    Button {
        action: action_of(k),
        x: left_of(win_w, widths, k) as u32,
        y: 3,
        w: (widths[k] + 2 * PAD) as u32,
        h: (TOOLBAR_H - 6) as u32,
    }
}

/// Whether there is one label width per button, and none too wide to pad.
pub open spec fn labels_fit(widths: Seq<u32>) -> bool {
    widths.len() == BUTTON_COUNT && forall|k: int|
        0 <= k < widths.len() ==> #[trigger] widths[k] + 2 * PAD <= u32::MAX
}

/// Every button, laid out from the right edge.
pub fn layout(win_w: u32, widths: &[u32]) -> (r: Vec<Button>)
    requires
        labels_fit(widths@),
    ensures
        r@ == Seq::new(BUTTON_COUNT as nat, |k: int| button_at(win_w, widths@, k)),
{
    let mut out: Vec<Button> = Vec::new();
    let mut right: u32 = win_w.saturating_sub(4);
    let mut k: usize = 0;
    while k < BUTTON_COUNT
        invariant
            labels_fit(widths@),
            k <= BUTTON_COUNT,
            right == right_of(win_w, widths@, k as int),
            out@ == Seq::new(k as nat, |i: int| button_at(win_w, widths@, i)),
        decreases BUTTON_COUNT - k,
    {
        let w: u32 = widths[k] + PAD * 2;
        let x: u32 = right.saturating_sub(w);
        assert(x == left_of(win_w, widths@, k as int));
        out.push(Button { action: button_action(k), x, y: 3, w, h: TOOLBAR_H - 6 });
        right = x.saturating_sub(6);
        k = k + 1;
        assert(out@ =~= Seq::new(k as nat, |i: int| button_at(win_w, widths@, i)));
    }
    out
}

/// The first button, counted from the right and from `k` on, that covers a place.
pub open spec fn hit(win_w: u32, widths: Seq<u32>, k: int, x: int, y: int) -> Option<
    ToolbarAction,
>
    decreases BUTTON_COUNT - k,
{
    if k >= BUTTON_COUNT {
        None
    } else if button_at(win_w, widths, k).covers(x, y) {
        Some(action_of(k))
    } else {
        hit(win_w, widths, k + 1, x, y)
    }
}

/// The button that a click in the window meets; `y` may lie above the window.
pub fn hit_test(x: u32, y: i64, win_w: u32, widths: &[u32]) -> (r: Option<ToolbarAction>)
    requires
        labels_fit(widths@),
    ensures
        r == (if 0 <= y < TOOLBAR_H {
            hit(win_w, widths@, 0, x as int, y as int)
        } else {
            None
        }),
{
    if y < 0 || y >= TOOLBAR_H as i64 {
        return None;
    }
    let row: u32 = y as u32;
    let buttons: Vec<Button> = layout(win_w, widths);
    let mut k: usize = 0;
    while k < BUTTON_COUNT
        invariant
            labels_fit(widths@),
            k <= BUTTON_COUNT,
            row == y,
            0 <= y < TOOLBAR_H,
            buttons@ == Seq::new(BUTTON_COUNT as nat, |k: int| button_at(win_w, widths@, k)),
            hit(win_w, widths@, 0, x as int, y as int) == hit(
                win_w,
                widths@,
                k as int,
                x as int,
                y as int,
            ),
        decreases BUTTON_COUNT - k,
    {
        let b: Button = buttons[k];
        if x >= b.x && (x as u64) < b.x as u64 + b.w as u64 && row >= b.y && row < b.y + b.h {
            return Some(b.action);
        }
        k = k + 1;
    }
    None
}

proof fn lemma_left_decreases(win_w: u32, widths: Seq<u32>, j: int, k: int)
    requires
        labels_fit(widths),
        0 <= j <= k < BUTTON_COUNT,
    ensures
        0 <= left_of(win_w, widths, k) <= left_of(win_w, widths, j) <= win_w,
    decreases k,
{
    if k > 0 {
        if j < k {
            lemma_left_decreases(win_w, widths, j, k - 1);
        } else {
            lemma_left_decreases(win_w, widths, k - 1, k - 1);
        }
    }
}

/// Where the window is wide enough for all the buttons, a click anywhere on a button
/// meets that button and no other.
pub proof fn law_buttons_do_not_overlap(win_w: u32, widths: Seq<u32>, k: int, x: int, y: int)
    requires
        labels_fit(widths),
        left_of(win_w, widths, BUTTON_COUNT - 1) > 0,
        0 <= k < BUTTON_COUNT,
        button_at(win_w, widths, k).covers(x, y),
    ensures
        hit(win_w, widths, 0, x, y) == Some(action_of(k)),
{
    assert forall|j: int| 0 <= j < k implies !(#[trigger] button_at(win_w, widths, j)).covers(
        x,
        y,
    ) by {
        lemma_left_decreases(win_w, widths, j, k - 1);
        lemma_left_decreases(win_w, widths, k, BUTTON_COUNT - 1);
        lemma_left_decreases(win_w, widths, j, BUTTON_COUNT - 1);
    }
    lemma_hit_from(win_w, widths, 0, k, x, y);
}

proof fn lemma_hit_from(win_w: u32, widths: Seq<u32>, j: int, k: int, x: int, y: int)
    requires
        0 <= j <= k < BUTTON_COUNT,
        button_at(win_w, widths, k).covers(x, y),
        forall|i: int| j <= i < k ==> !(#[trigger] button_at(win_w, widths, i)).covers(x, y),
    ensures
        hit(win_w, widths, j, x, y) == Some(action_of(k)),
    decreases k - j,
{
    if j < k {
        assert(!button_at(win_w, widths, j).covers(x, y));
        lemma_hit_from(win_w, widths, j + 1, k, x, y);
    }
}

/// One step of drawing the toolbar: a box, or a text in the middle of the bar.
pub enum DrawOp {
    Fill { x: u32, y: u32, w: u32, h: u32, color: u32 },
    Text { x: u32, text: String, color: u32 },
}

/// A step of drawing, its text as characters.
pub enum Op {
    Fill { x: u32, y: u32, w: u32, h: u32, color: u32 },
    Text { x: u32, text: Seq<char>, color: u32 },
}

impl DrawOp {
    pub open spec fn view(&self) -> Op {
        match *self {
            DrawOp::Fill { x, y, w, h, color } => Op::Fill { x, y, w, h, color },
            DrawOp::Text { x, text, color } => Op::Text { x, text: text@, color },
        }
    }
}

pub open spec fn ops_of(s: Seq<DrawOp>) -> Seq<Op> {
    Seq::new(s.len(), |i: int| s[i]@)
}

/// The widths of the toolbar's texts in the font at hand.
pub struct Widths {
    pub status: u32,
    pub rec: u32,
    pub labels: Vec<u32>,
}

/// Whether the places of all texts fit the number type.
pub open spec fn widths_fit(w: Widths) -> bool {
    labels_fit(w.labels@) && w.status + w.rec + 100 <= u32::MAX
}

/// The place behind the status line.
pub open spec fn after_status(w: Widths) -> int {
    26 + w.status + 16
}

/// The place behind the recording mark, if that is shown.
pub open spec fn after_recording(st: Status, w: Widths) -> int {
    if st.recording {
        after_status(w) + 14 + w.rec + 18
    } else {
        after_status(w)
    }
}

/// Green for an encrypted link to a verified server, red for one in the clear, amber
/// for an encrypted one to a server that is not verified.
pub open spec fn lock_color(st: Status) -> u32 {
    if st.secure {
        ACCENT_OK
    } else if !st.encrypted {
        REC_RED
    } else {
        ACCENT_BUSY
    }
}

/// The background of a button: red while recording, tinted while its toggle is on.
pub open spec fn button_color(st: Status, action: ToolbarAction) -> u32 {
    if action == ToolbarAction::ToggleRecord && st.recording {
        REC_RED
    } else if action == ToolbarAction::ToggleCurtain && st.curtain || action
        == ToolbarAction::ToggleViewOnly && st.view_only {
        BTN_ACTIVE
    } else {
        BTN_BG
    }
}

/// The bar with its hairline, the connection dot and the status line.
pub open spec fn status_ops(win_w: u32, st: Status, mebibytes: Seq<char>) -> Seq<Op> {
    seq![
        Op::Fill { x: 0, y: 0, w: win_w, h: TOOLBAR_H, color: BAR_BG },
        Op::Fill { x: 0, y: 29, w: win_w, h: 1, color: HAIRLINE },
        Op::Fill {
            x: 10,
            y: 11,
            w: 8,
            h: 8,
            color: if st.connected {
                ACCENT_OK
            } else {
                ACCENT_BUSY
            },
        },
        Op::Text { x: 26, text: status_line(st, mebibytes), color: TEXT },
    ]
}

/// A red dot and the word REC, while recording.
pub open spec fn recording_ops(st: Status, w: Widths) -> Seq<Op> {
    if st.recording {
        seq![
            Op::Fill { x: after_status(w) as u32, y: 11, w: 8, h: 8, color: REC_RED },
            Op::Text { x: (after_status(w) + 14) as u32, text: "REC"@, color: REC_RED },
        ]
    } else {
        seq![]
    }
}

/// A padlock and the security summary, unless that is empty.
pub open spec fn security_ops(st: Status, w: Widths) -> Seq<Op> {
    if st.security@.len() > 0 {
        let x = after_recording(st, w);
        seq![
            Op::Fill { x: x as u32, y: 12, w: 9, h: 7, color: lock_color(st) },
            Op::Fill { x: (x + 2) as u32, y: 9, w: 5, h: 3, color: lock_color(st) },
            Op::Text { x: (x + 15) as u32, text: st.security@, color: lock_color(st) },
        ]
    } else {
        seq![]
    }
}

pub open spec fn button_fill(win_w: u32, st: Status, w: Widths, k: int) -> Op {
    let b = button_at(win_w, w.labels@, k);
    Op::Fill { x: b.x, y: b.y, w: b.w, h: b.h, color: button_color(st, b.action) }
}

pub open spec fn button_text(win_w: u32, w: Widths, labels: Seq<Seq<char>>, k: int) -> Op {
    let b = button_at(win_w, w.labels@, k);
    Op::Text { x: (b.x + (b.w - w.labels@[k]) / 2) as u32, text: labels[k], color: BTN_TEXT }
}

/// All that the toolbar shows, in the order in which it is drawn; nothing in a window
/// that is too low for it.
pub open spec fn toolbar_ops(
    win_w: u32,
    win_h: u32,
    st: Status,
    mebibytes: Seq<char>,
    labels: Seq<Seq<char>>,
    w: Widths,
) -> Seq<Op> {
    if win_h < TOOLBAR_H {
        seq![]
    } else {
        status_ops(win_w, st, mebibytes) + recording_ops(st, w) + security_ops(st, w) + Seq::new(
            BUTTON_COUNT as nat,
            |k: int| button_fill(win_w, st, w, k),
        ) + Seq::new(BUTTON_COUNT as nat, |k: int| button_text(win_w, w, labels, k))
    }
}

fn fill(out: &mut Vec<DrawOp>, x: u32, y: u32, w: u32, h: u32, color: u32)
    ensures
        ops_of(final(out)@) == ops_of(old(out)@).push(Op::Fill { x, y, w, h, color }),
{
    out.push(DrawOp::Fill { x, y, w, h, color });
    assert(ops_of(out@) =~= ops_of(old(out)@).push(Op::Fill { x, y, w, h, color }));
}

fn write(out: &mut Vec<DrawOp>, x: u32, text: String, color: u32)
    ensures
        ops_of(final(out)@) == ops_of(old(out)@).push(Op::Text { x, text: text@, color }),
{
    let ghost t = text@;
    out.push(DrawOp::Text { x, text, color });
    assert(ops_of(out@) =~= ops_of(old(out)@).push(Op::Text { x, text: t, color }));
}

fn plan_status(win_w: u32, st: &Status, mebibytes: &str) -> (out: Vec<DrawOp>)
    ensures
        ops_of(out@) == status_ops(win_w, *st, mebibytes@),
{
    let mut out: Vec<DrawOp> = Vec::new();
    fill(&mut out, 0, 0, win_w, TOOLBAR_H, BAR_BG);
    fill(&mut out, 0, TOOLBAR_H - 1, win_w, 1, HAIRLINE);
    let dot: u32 = if st.connected {
        ACCENT_OK
    } else {
        ACCENT_BUSY
    };
    fill(&mut out, 10, TOOLBAR_H / 2 - 4, 8, 8, dot);
    write(&mut out, 26, status_text(st, mebibytes), TEXT);
    assert(ops_of(out@) =~= status_ops(win_w, *st, mebibytes@));
    out
}

fn plan_recording(out: &mut Vec<DrawOp>, st: &Status, w: &Widths)
    requires
        widths_fit(*w),
    ensures
        ops_of(final(out)@) == ops_of(old(out)@) + recording_ops(*st, *w),
{
    if st.recording {
        let x: u32 = 26 + w.status + 16;
        fill(out, x, TOOLBAR_H / 2 - 4, 8, 8, REC_RED);
        write(out, x + 14, String::from_str("REC"), REC_RED);
    }
    assert(ops_of(out@) =~= ops_of(old(out)@) + recording_ops(*st, *w));
}

fn plan_security(out: &mut Vec<DrawOp>, st: &Status, w: &Widths)
    requires
        widths_fit(*w),
    ensures
        ops_of(final(out)@) == ops_of(old(out)@) + security_ops(*st, *w),
{
    if st.security.unicode_len() > 0 {
        let x: u32 = if st.recording {
            26 + w.status + 16 + 14 + w.rec + 18
        } else {
            26 + w.status + 16
        };
        let color: u32 = if st.secure {
            ACCENT_OK
        } else if !st.encrypted {
            REC_RED
        } else {
            ACCENT_BUSY
        };
        let cy: u32 = TOOLBAR_H / 2;
        fill(out, x, cy - 3, 9, 7, color);
        fill(out, x + 2, cy - 6, 5, 3, color);
        write(out, x + 15, String::from_str(st.security), color);
    }
    assert(ops_of(out@) =~= ops_of(old(out)@) + security_ops(*st, *w));
}

fn color_of_button(st: &Status, action: ToolbarAction) -> (r: u32)
    ensures
        r == button_color(*st, action),
{
    if action == ToolbarAction::ToggleRecord && st.recording {
        REC_RED
    } else if (action == ToolbarAction::ToggleCurtain && st.curtain) || (action
        == ToolbarAction::ToggleViewOnly && st.view_only) {
        BTN_ACTIVE
    } else {
        BTN_BG
    }
}

fn plan_buttons(out: &mut Vec<DrawOp>, win_w: u32, st: &Status, labels: &Vec<String>, w: &Widths)
    requires
        widths_fit(*w),
        labels@.len() == BUTTON_COUNT,
    ensures
        ops_of(final(out)@) == ops_of(old(out)@) + Seq::new(
            BUTTON_COUNT as nat,
            |k: int| button_fill(win_w, *st, *w, k),
        ) + Seq::new(
            BUTTON_COUNT as nat,
            |k: int| button_text(win_w, *w, strings_of(labels@), k),
        ),
{
    let buttons: Vec<Button> = layout(win_w, w.labels.as_slice());
    let ghost fills = |k: int| button_fill(win_w, *st, *w, k);
    let ghost texts = |k: int| button_text(win_w, *w, strings_of(labels@), k);
    let ghost before = ops_of(out@);
    let mut k: usize = 0;
    assert(ops_of(out@) =~= before + Seq::new(0, fills));
    while k < BUTTON_COUNT
        invariant
            k <= BUTTON_COUNT,
            buttons@ == Seq::new(BUTTON_COUNT as nat, |k: int| button_at(win_w, w.labels@, k)),
            fills == (|k: int| button_fill(win_w, *st, *w, k)),
            ops_of(out@) == before + Seq::new(k as nat, fills),
        decreases BUTTON_COUNT - k,
    {
        let b: Button = buttons[k];
        fill(out, b.x, b.y, b.w, b.h, color_of_button(st, b.action));
        k = k + 1;
        assert(ops_of(out@) =~= before + Seq::new(k as nat, fills));
    }
    let ghost middle = ops_of(out@);
    k = 0;
    assert(ops_of(out@) =~= middle + Seq::new(0, texts));
    while k < BUTTON_COUNT
        invariant
            k <= BUTTON_COUNT,
            widths_fit(*w),
            labels@.len() == BUTTON_COUNT,
            buttons@ == Seq::new(BUTTON_COUNT as nat, |k: int| button_at(win_w, w.labels@, k)),
            texts == (|k: int| button_text(win_w, *w, strings_of(labels@), k)),
            ops_of(out@) == middle + Seq::new(k as nat, texts),
        decreases BUTTON_COUNT - k,
    {
        let b: Button = buttons[k];
        proof {
            lemma_left_decreases(win_w, w.labels@, k as int, k as int);
            lemma_button_ends(win_w, w.labels@, k as int);
        }
        let x: u32 = b.x + b.w.saturating_sub(w.labels[k]) / 2;
        write(out, x, String::from_str(labels[k].as_str()), BTN_TEXT);
        k = k + 1;
        assert(ops_of(out@) =~= middle + Seq::new(k as nat, texts));
    }
}

/// A button's start and half its padding stay in the number type.
proof fn lemma_button_ends(win_w: u32, widths: Seq<u32>, k: int)
    requires
        labels_fit(widths),
        0 <= k < BUTTON_COUNT,
    ensures
        left_of(win_w, widths, k) + PAD <= u32::MAX,
    decreases k,
{
    if k > 0 {
        lemma_left_decreases(win_w, widths, k - 1, k - 1);
    }
}

/// Plan the toolbar over the top rows of the window.
pub fn plan(
    win_w: u32,
    win_h: u32,
    st: &Status,
    mebibytes: &str,
    labels: &Vec<String>,
    w: &Widths,
) -> (out: Vec<DrawOp>)
    requires
        widths_fit(*w),
        labels@.len() == BUTTON_COUNT,
    ensures
        ops_of(out@) == toolbar_ops(win_w, win_h, *st, mebibytes@, strings_of(labels@), *w),
{
    if win_h < TOOLBAR_H {
        let out: Vec<DrawOp> = Vec::new();
        assert(ops_of(out@) =~= seq![]);
        return out;
    }
    let mut out: Vec<DrawOp> = plan_status(win_w, st, mebibytes);
    plan_recording(&mut out, st, w);
    plan_security(&mut out, st, w);
    plan_buttons(&mut out, win_w, st, labels, w);
    out
}

impl Screen {
    /// One step of drawing with the 8x8 font.
    pub open spec fn step(self, op: Op) -> Screen {
        match op {
            Op::Fill { x, y, w, h, color } => self.filled(
                x as int,
                y as int,
                w as int,
                h as int,
                color,
            ),
            Op::Text { x, text, color } => self.text(x as int, 11, text, color, 1),
        }
    }

    /// Steps of drawing, one after the other.
    pub open spec fn steps(self, ops: Seq<Op>) -> Screen
        decreases ops.len(),
    {
        if ops.len() == 0 {
            self
        } else {
            self.steps(ops.drop_last()).step(ops.last())
        }
    }
}

/// Whether a step, drawn with the 8x8 font, stays in the number type.
pub open spec fn op_fits(op: Op) -> bool {
    match op {
        Op::Fill { x, y, w, h, color } => x + w <= u32::MAX && y + h <= u32::MAX,
        Op::Text { x, text, color } => x + 8 * text.len() <= u32::MAX,
    }
}

/// Draw a plan with the 8x8 font.
pub fn draw_plan(buf: &mut [u32], win_w: u32, win_h: u32, ops: &Vec<DrawOp>)
    requires
        fits(old(buf)@, win_w, win_h),
        forall|i: int| 0 <= i < ops@.len() ==> op_fits(#[trigger] ops@[i]@),
    ensures
        shows(old(buf)@, final(buf)@, win_w, win_h, screen(old(buf)@, win_w, win_h).steps(ops_of(ops@))),
{
    let ghost all = ops_of(ops@);
    let ghost before = screen(buf@, win_w, win_h);
    let ghost old_buf = buf@;
    let mut i: usize = 0;
    assert(all.take(0) =~= seq![]);
    while i < ops.len()
        invariant
            i <= ops@.len(),
            all == ops_of(ops@),
            fits(buf@, win_w, win_h),
            before.width == win_w,
            before.height == win_h,
            old_buf.len() == buf@.len(),
            forall|i: int| 0 <= i < ops@.len() ==> op_fits(#[trigger] ops@[i]@),
            shows(old_buf, buf@, win_w, win_h, before.steps(all.take(i as int))),
        decreases ops.len() - i,
    {
        proof {
            assert(all.take(i + 1).drop_last() =~= all.take(i as int));
            assert(all.take(i + 1).last() == ops@[i as int]@);
            assert(op_fits(ops@[i as int]@));
        }
        match &ops[i] {
            DrawOp::Fill { x, y, w, h, color } => {
                fill_rect(buf, win_w, win_h, *x, *y, *w, *h, *color);
            },
            DrawOp::Text { x, text, color } => {
                draw_text_scaled(
                    buf,
                    win_w,
                    win_h,
                    *x,
                    (TOOLBAR_H - 8) / 2,
                    text.as_str(),
                    *color,
                    1,
                );
            },
        }
        i = i + 1;
    }
    assert(all.take(ops@.len() as int) =~= all);
}

/// The width of a text in the 8x8 font.
pub fn measure(s: &str) -> (r: u32)
    requires
        8 * s@.len() <= u32::MAX,
    ensures
        r == 8 * s@.len(),
{
    s.unicode_len() as u32 * 8
}

/// The widths of the toolbar's texts in the 8x8 font.
pub open spec fn fixed_widths(
    w: Widths,
    st: Status,
    mebibytes: Seq<char>,
    labels: Seq<Seq<char>>,
) -> bool {
    &&& w.status == 8 * status_line(st, mebibytes).len()
    &&& w.rec == 24
    &&& w.labels@ == Seq::new(labels.len(), |k: int| (8 * labels[k].len()) as u32)
}

/// Whether the toolbar's texts, drawn with the 8x8 font, stay in the number type.
pub open spec fn texts_fit(
    win_w: u32,
    st: Status,
    mebibytes: Seq<char>,
    labels: Seq<Seq<char>>,
) -> bool {
    &&& 8 * status_line(st, mebibytes).len() + 8 * st.security@.len() + 200 <= u32::MAX
    &&& labels.len() == BUTTON_COUNT
    &&& forall|k: int|
        0 <= k < labels.len() ==> win_w + 8 * (#[trigger] labels[k]).len() + 100 <= u32::MAX
}

fn measure_all(st: &Status, mebibytes: &str, labels: &Vec<String>) -> (w: Widths)
    requires
        texts_fit(0, *st, mebibytes@, strings_of(labels@)),
    ensures
        fixed_widths(w, *st, mebibytes@, strings_of(labels@)),
{
    let line: String = status_text(st, mebibytes);
    let status: u32 = measure(line.as_str());
    proof {
        reveal_strlit("REC");
    }
    let rec: u32 = measure("REC");
    let mut widths: Vec<u32> = Vec::new();
    let ghost all = strings_of(labels@);
    let mut k: usize = 0;
    while k < labels.len()
        invariant
            k <= labels@.len(),
            all == strings_of(labels@),
            texts_fit(0, *st, mebibytes@, all),
            widths@ == Seq::new(k as nat, |i: int| (8 * all[i].len()) as u32),
        decreases labels.len() - k,
    {
        assert(0 + 8 * all[k as int].len() + 100 <= u32::MAX);
        widths.push(measure(labels[k].as_str()));
        k = k + 1;
        assert(widths@ =~= Seq::new(k as nat, |i: int| (8 * all[i].len()) as u32));
    }
    Widths { status, rec, labels: widths }
}

proof fn lemma_plan_fits(
    win_w: u32,
    win_h: u32,
    st: Status,
    mebibytes: Seq<char>,
    labels: Seq<Seq<char>>,
    w: Widths,
)
    requires
        texts_fit(win_w, st, mebibytes, labels),
        fixed_widths(w, st, mebibytes, labels),
    ensures
        widths_fit(w),
        forall|i: int|
            #![auto]
            0 <= i < toolbar_ops(win_w, win_h, st, mebibytes, labels, w).len() ==> op_fits(
                toolbar_ops(win_w, win_h, st, mebibytes, labels, w)[i],
            ),
{
    reveal_strlit("REC");
    assert(labels_fit(w.labels@)) by {
        assert forall|k: int| 0 <= k < w.labels@.len() implies #[trigger] w.labels@[k] + 2 * PAD
            <= u32::MAX by {
            assert(win_w + 8 * labels[k].len() + 100 <= u32::MAX);
        }
    }
    assert forall|k: int| 0 <= k < BUTTON_COUNT implies op_fits(
        #[trigger] button_fill(win_w, st, w, k),
    ) by {
        assert(win_w + 8 * labels[k].len() + 100 <= u32::MAX);
        lemma_left_decreases(win_w, w.labels@, k, k);
    }
    assert forall|k: int| 0 <= k < BUTTON_COUNT implies op_fits(
        #[trigger] button_text(win_w, w, labels, k),
    ) by {
        assert(win_w + 8 * labels[k].len() + 100 <= u32::MAX);
        lemma_left_decreases(win_w, w.labels@, k, k);
    }
}

/// Draw the toolbar with the 8x8 font over the top rows of the window.
pub fn draw(
    buf: &mut [u32],
    win_w: u32,
    win_h: u32,
    st: &Status,
    mebibytes: &str,
    labels: &Vec<String>,
)
    requires
        fits(old(buf)@, win_w, win_h),
        texts_fit(win_w, *st, mebibytes@, strings_of(labels@)),
    ensures
        exists|w: Widths|
            fixed_widths(w, *st, mebibytes@, strings_of(labels@)) && #[trigger] shows(
                old(buf)@,
                final(buf)@,
                win_w,
                win_h,
                screen(old(buf)@, win_w, win_h).steps(
                    toolbar_ops(win_w, win_h, *st, mebibytes@, strings_of(labels@), w),
                ),
            ),
{
    assert(texts_fit(0, *st, mebibytes@, strings_of(labels@))) by {
        assert forall|k: int| 0 <= k < labels@.len() implies 0 + 8 * (#[trigger] strings_of(
            labels@,
        )[k]).len() + 100 <= u32::MAX by {}
    }
    let w: Widths = measure_all(st, mebibytes, labels);
    proof {
        lemma_plan_fits(win_w, win_h, *st, mebibytes@, strings_of(labels@), w);
    }
    let ops: Vec<DrawOp> = plan(win_w, win_h, st, mebibytes, labels, &w);
    assert forall|i: int| 0 <= i < ops@.len() implies op_fits(#[trigger] ops@[i]@) by {
        assert(ops_of(ops@)[i] == ops@[i]@);
    }
    draw_plan(buf, win_w, win_h, &ops);
}

} // verus!
