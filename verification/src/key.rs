//! Editing modes and the key events that drive them.

use vstd::prelude::*;

verus! {

/// The editing mode; exactly one is active at a time.
#[derive(Clone, Copy, Debug, PartialEq, Eq, Structural)]
pub enum Mode {
    Move,
    Select,
    BoxDraw,
    PencilDraw,
    LineDraw,
}

impl Mode {
    /// The name of the mode as a status line shows it.
    pub open spec fn label(self) -> Seq<char> {
        match self {
            Mode::Move => "Move"@,
            Mode::Select => "Select"@,
            Mode::BoxDraw => "BoxDraw"@,
            Mode::PencilDraw => "PencilDraw"@,
            Mode::LineDraw => "LineDraw"@,
        }
    }

    /// The name of the mode as a status line shows it.
    pub fn name(self) -> (name: &'static str)
        ensures
            name@ == self.label(),
    {
        match self {
            Mode::Move => "Move",
            Mode::Select => "Select",
            Mode::BoxDraw => "BoxDraw",
            Mode::PencilDraw => "PencilDraw",
            Mode::LineDraw => "LineDraw",
        }
    }
}

/// The key of an event, as far as the editor tells keys apart.
#[derive(Clone, Copy, Debug, PartialEq, Eq, Structural)]
pub enum Key {
    /// A character key, with the character it produces.
    Char(char),
    Up,
    Down,
    Left,
    Right,
    Enter,
    Esc,
    /// Any other key; no mode reacts to it.
    Other,
}

/// One key event: the key, and whether the control modifier was held.
#[derive(Clone, Copy, Debug, PartialEq, Eq, Structural)]
pub struct KeyInput {
    pub key: Key,
    pub ctrl: bool,
}

/// What the host has to do once an event has been handled. The frame is to
/// be drawn anew in every case.
#[derive(Clone, Copy, Debug, PartialEq, Eq, Structural)]
pub enum HostAction {
    /// Nothing more.
    Redraw,
    /// Store the layers first.
    SaveAndRedraw,
    /// Leave the event loop afterwards.
    RedrawAndQuit,
}

impl KeyInput {
    /// The save combination: control and a lower-case `s`.
    pub open spec fn is_save(self) -> bool {
        self.ctrl && self.key == Key::Char('s')
    }

    /// The quit combination: control and a lower-case `c`.
    pub open spec fn is_quit(self) -> bool {
        self.ctrl && self.key == Key::Char('c')
    }

    /// What the host owes this event, whatever the mode.
    pub open spec fn host_action(self) -> HostAction {
        if self.is_save() {
            HostAction::SaveAndRedraw
        } else if self.is_quit() {
            HostAction::RedrawAndQuit
        } else {
            HostAction::Redraw
        }
    }
}

} // verus!
