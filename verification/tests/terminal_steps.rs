use librarian::terminal::{next_step, Key, Step, TerminalEvent};

#[test]
fn escape_quits() {
    assert_eq!(next_step(&TerminalEvent::Key(Key::Esc)), Step::Quit);
}

#[test]
fn other_events_redraw() {
    assert_eq!(next_step(&TerminalEvent::Key(Key::Other)), Step::Redraw);
    assert_eq!(next_step(&TerminalEvent::Other), Step::Redraw);
}
