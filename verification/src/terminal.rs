//! What the terminal interface does with each input event.
use vstd::prelude::*;

verus! {

/// The keys the interface tells apart.
#[derive(Debug, Clone, PartialEq, Eq)]
pub enum Key {
    Esc,
    Other,
}

/// An input event of the terminal.
#[derive(Debug, Clone, PartialEq, Eq)]
pub enum TerminalEvent {
    /// A key event (press, repeat or release alike).
    Key(Key),
    /// Any other event: mouse, resize, focus, paste.
    Other,
}

/// What the interface does after an event.
#[derive(Debug, Clone, PartialEq, Eq)]
pub enum Step {
    /// Draw the screen again and wait for the next event.
    Redraw,
    /// Leave the interface.
    Quit,
}

/// The interface is left on a key event of `Esc` and goes on after any other
/// event.
pub fn next_step(event: &TerminalEvent) -> (s: Step)
    ensures
        (s is Quit) <==> (*event == TerminalEvent::Key(Key::Esc)),
{
    match event {
        TerminalEvent::Key(Key::Esc) => Step::Quit,
        _ => Step::Redraw,
    }
}

} // verus!
