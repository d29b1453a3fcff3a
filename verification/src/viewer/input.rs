//! Keyboard and mouse input for the remote side.

use crate::viewer::toolbar::ToolbarAction;
use vstd::prelude::*;

verus! {

/// Scan code of the left control key.
pub const CTRL: u8 = 0x1D;

/// Scan code of the left alt key.
pub const ALT: u8 = 0x38;

/// Scan code of the delete key, an extended one.
pub const DEL: u8 = 0x53;

/// Mouse moves are sent at most once in this many milliseconds.
pub const MOVE_MS: u64 = 15;

/// What a mouse event reports.
#[derive(Debug, Clone, Copy, PartialEq, Eq, Structural)]
pub enum MouseAction {
    Move,
    Left,
    Right,
    /// A button that the remote side is not told apart.
    OtherButton,
    Wheel,
}

/// One input event for the remote side.
#[derive(Debug, Clone, Copy, PartialEq, Eq, Structural)]
pub enum InputEvent {
    Key { release: bool, extended: bool, code: u8 },
    Mouse { action: MouseAction, down: bool, units: i16, x: u16, y: u16 },
}

/// The secure attention sequence: control, alt and delete go down in turn and up in
/// the opposite order.
pub open spec fn attention() -> Seq<InputEvent> {
    seq![
        InputEvent::Key { release: false, extended: false, code: CTRL },
        InputEvent::Key { release: false, extended: false, code: ALT },
        InputEvent::Key { release: false, extended: true, code: DEL },
        InputEvent::Key { release: true, extended: true, code: DEL },
        InputEvent::Key { release: true, extended: false, code: ALT },
        InputEvent::Key { release: true, extended: false, code: CTRL },
    ]
}

/// The event of a hardware scan code: one above a byte is an extended key's.
pub open spec fn key_of(scancode: u32, release: bool) -> InputEvent {
    InputEvent::Key { release, extended: scancode > 0xFF, code: (scancode % 0x100) as u8 }
}

/// What the window knows of the user's controls.
#[derive(Debug, Clone, Copy, PartialEq, Eq, Structural)]
pub struct Controls {
    /// While set, nothing is sent to the remote side.
    pub view_only: bool,
    pub curtain: bool,
    pub fullscreen: bool,
    pub recording: bool,
}

/// What a toolbar button asks of the window.
#[derive(Debug, Clone, PartialEq, Eq)]
pub enum Request {
    Send(Vec<InputEvent>),
    PickFile,
    SetCurtain(bool),
    Nothing,
    StartRecording,
    StopRecording,
    SetFullscreen(bool),
    SwitchHost,
}

impl Controls {
    pub fn new() -> (c: Self)
        ensures
            c == (Controls {
                view_only: false,
                curtain: false,
                fullscreen: false,
                recording: false,
            }),
    {
        Controls { view_only: false, curtain: false, fullscreen: false, recording: false }
    }

    /// The events that reach the remote side.
    pub open spec fn passed(self, events: Seq<InputEvent>) -> Seq<InputEvent> {
        if self.view_only {
            Seq::empty()
        } else {
            events
        }
    }

    /// One event, unless the window is view-only.
    pub fn send_input(&self, event: InputEvent) -> (r: Vec<InputEvent>)
        ensures
            r@ == self.passed(seq![event]),
    {
        let mut v: Vec<InputEvent> = Vec::new();
        if !self.view_only {
            v.push(event);
        }
        assert(v@ =~= self.passed(seq![event]));
        v
    }

    /// The secure attention sequence, unless the window is view-only.
    pub fn send_ctrl_alt_del(&self) -> (r: Vec<InputEvent>)
        ensures
            r@ == self.passed(attention()),
    {
        let mut v: Vec<InputEvent> = Vec::new();
        if !self.view_only {
            v.push(InputEvent::Key { release: false, extended: false, code: CTRL });
            v.push(InputEvent::Key { release: false, extended: false, code: ALT });
            v.push(InputEvent::Key { release: false, extended: true, code: DEL });
            v.push(InputEvent::Key { release: true, extended: true, code: DEL });
            v.push(InputEvent::Key { release: true, extended: false, code: ALT });
            v.push(InputEvent::Key { release: true, extended: false, code: CTRL });
        }
        assert(v@ =~= self.passed(attention()));
        v
    }

    /// The events of a key. Pressing End while control and alt are held sends the
    /// secure attention sequence; a key without a scan code sends nothing.
    pub fn on_key(
        &self,
        pressed: bool,
        ctrl: bool,
        alt: bool,
        end_key: bool,
        scancode: Option<u32>,
    ) -> (r: Vec<InputEvent>)
        ensures
            r@ == self.passed(
                if pressed && ctrl && alt && end_key {
                    attention()
                } else {
                    match scancode {
                        Some(sc) => seq![key_of(sc, !pressed)],
                        None => Seq::empty(),
                    }
                },
            ),
    {
        if pressed && ctrl && alt && end_key {
            return self.send_ctrl_alt_del();
        }
        match scancode {
            Some(sc) => self.send_input(
                InputEvent::Key {
                    release: !pressed,
                    extended: sc > 0xFF,
                    code: (sc % 0x100) as u8,
                },
            ),
            None => Vec::new(),
        }
    }

    /// A mouse button over the desktop, at the place of the last move.
    pub fn on_button(&self, action: MouseAction, down: bool, x: u16, y: u16) -> (r: Vec<InputEvent>)
        ensures
            r@ == self.passed(seq![InputEvent::Mouse { action, down, units: 0, x, y }]),
    {
        self.send_input(InputEvent::Mouse { action, down, units: 0, x, y })
    }

    /// A turn of the wheel.
    pub fn on_wheel(&self, units: i16) -> (r: Vec<InputEvent>)
        ensures
            r@ == self.passed(
                seq![
                    InputEvent::Mouse { action: MouseAction::Wheel, down: false, units, x: 0, y: 0 },
                ],
            ),
    {
        self.send_input(
            InputEvent::Mouse { action: MouseAction::Wheel, down: false, units, x: 0, y: 0 },
        )
    }

    /// A move over the desktop, `since` milliseconds after the last one that counted:
    /// whether it counts, and what it sends.
    pub fn on_move(&self, since: u64, x: u16, y: u16) -> (r: (bool, Vec<InputEvent>))
        ensures
            r.0 == (since >= MOVE_MS),
            r.1@ == (if since >= MOVE_MS {
                self.passed(
                    seq![
                        InputEvent::Mouse {
                            action: MouseAction::Move,
                            down: false,
                            units: 0,
                            x,
                            y,
                        },
                    ],
                )
            } else {
                Seq::empty()
            }),
    {
        if since >= MOVE_MS {
            let v: Vec<InputEvent> = self.send_input(
                InputEvent::Mouse { action: MouseAction::Move, down: false, units: 0, x, y },
            );
            (true, v)
        } else {
            (false, Vec::new())
        }
    }

    /// The controls after a toolbar button.
    pub open spec fn after(self, action: ToolbarAction) -> Controls {
        match action {
            ToolbarAction::ToggleCurtain => Controls { curtain: !self.curtain, ..self },
            ToolbarAction::ToggleViewOnly => Controls { view_only: !self.view_only, ..self },
            ToolbarAction::ToggleFullscreen => Controls { fullscreen: !self.fullscreen, ..self },
            ToolbarAction::ToggleRecord => Controls { recording: !self.recording, ..self },
            _ => self,
        }
    }

    /// Run a toolbar button.
    pub fn run(&mut self, action: ToolbarAction) -> (r: Request)
        ensures
            *final(self) == old(self).after(action),
            match action {
                ToolbarAction::CtrlAltDel => r matches Request::Send(v) && v@ == old(self).passed(
                    attention(),
                ),
                ToolbarAction::SendFile => r == Request::PickFile,
                ToolbarAction::ToggleCurtain => r == Request::SetCurtain(!old(self).curtain),
                ToolbarAction::ToggleViewOnly => r == Request::Nothing,
                ToolbarAction::ToggleRecord => r == (if old(self).recording {
                    Request::StopRecording
                } else {
                    Request::StartRecording
                }),
                ToolbarAction::ToggleFullscreen => r == Request::SetFullscreen(
                    !old(self).fullscreen,
                ),
                ToolbarAction::Disconnect => r == Request::SwitchHost,
            },
    {
        match action {
            ToolbarAction::CtrlAltDel => Request::Send(self.send_ctrl_alt_del()),
            ToolbarAction::SendFile => Request::PickFile,
            ToolbarAction::ToggleCurtain => {
                self.curtain = !self.curtain;
                Request::SetCurtain(self.curtain)
            },
            ToolbarAction::ToggleViewOnly => {
                self.view_only = !self.view_only;
                Request::Nothing
            },
            ToolbarAction::ToggleRecord => {
                self.recording = !self.recording;
                if self.recording {
                    Request::StartRecording
                } else {
                    Request::StopRecording
                }
            },
            ToolbarAction::ToggleFullscreen => {
                self.fullscreen = !self.fullscreen;
                Request::SetFullscreen(self.fullscreen)
            },
            ToolbarAction::Disconnect => Request::SwitchHost,
        }
    }

    /// Say that no recording could be started.
    pub fn recording_failed(&mut self)
        ensures
            *final(self) == (Controls { recording: false, ..*old(self) }),
    {
        self.recording = false;
    }
}

/// A view-only window sends nothing, whatever is asked of it.
pub proof fn law_view_only_sends_nothing(c: Controls, events: Seq<InputEvent>)
    requires
        c.view_only,
    ensures
        c.passed(events).len() == 0,
{
}

/// The secure attention sequence leaves no key held: each key that it presses it
/// releases later, and nothing is released that was not pressed before.
pub proof fn law_attention_releases_every_key(i: int)
    requires
        0 <= i < attention().len(),
    ensures
        attention()[i] matches InputEvent::Key { release, extended, code }
            && attention()[attention().len() - 1 - i] == (InputEvent::Key {
            release: !release,
            extended,
            code,
        }) && (release <==> i >= 3),
{
}

/// A toggle pressed twice is as if it had not been pressed.
pub proof fn law_toggles_undo_themselves(c: Controls, action: ToolbarAction)
    ensures
        c.after(action).after(action) == c,
{
}

} // verus!
