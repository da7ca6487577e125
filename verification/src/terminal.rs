//! Key events as the terminal library delivers them.

use vstd::prelude::*;
use crate::key::{HostAction, Key, KeyInput};
use crate::state::AppState;

verus! {

/// The key event of the terminal library, `crossterm::event::KeyEvent`. The
/// proofs see nothing of what it holds.
#[verifier::external_type_specification]
#[verifier::external_body]
pub struct ExKeyEvent(crossterm::event::KeyEvent);

/// The key that a `crossterm::event::KeyEvent` stands for: its `code` as a
/// `Key`, and whether its `modifiers` hold `KeyModifiers::CONTROL`. It
/// depends on the event alone.
pub uninterp spec fn key_of(event: crossterm::event::KeyEvent) -> KeyInput;

/// Reads a `crossterm::event::KeyEvent`: the variant of its `code`, with the
/// character of `KeyCode::Char`, and whether its `modifiers` hold
/// `KeyModifiers::CONTROL`, by `KeyModifiers::contains`. Assumed, not proved:
/// what comes out is `key_of` of the event, that is, the same key for the
/// same event. Nothing is assumed of which key that is.
#[verifier::external_body]
fn key_input(event: &crossterm::event::KeyEvent) -> (input: KeyInput)
    ensures
        input == key_of(*event),
{
    let key = match event.code {
        crossterm::event::KeyCode::Char(c) => Key::Char(c),
        crossterm::event::KeyCode::Up => Key::Up,
        crossterm::event::KeyCode::Down => Key::Down,
        crossterm::event::KeyCode::Left => Key::Left,
        crossterm::event::KeyCode::Right => Key::Right,
        crossterm::event::KeyCode::Enter => Key::Enter,
        crossterm::event::KeyCode::Esc => Key::Esc,
        _ => Key::Other,
    };
    KeyInput { key, ctrl: event.modifiers.contains(crossterm::event::KeyModifiers::CONTROL) }
}

impl AppState {
    /// Handles one key event of the terminal and says what the host has to do
    /// next: the state changes as `handle_key` prescribes for the key that
    /// the event stands for, and the action is the one that key asks for.
    pub fn handle_key_event(&mut self, key: crossterm::event::KeyEvent) -> (action: HostAction)
        requires
            old(self).wf(),
        ensures
            final(self).wf(),
            final(self)@ == old(self)@.handle_key(key_of(key).key),
            action == key_of(key).host_action(),
    {
        let input = key_input(&key);
        self.handle_key(input)
    }
}

} // verus!
