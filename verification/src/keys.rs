use crate::mode::Mode;
use vstd::prelude::*;

verus! {

/// A keystroke, as the model sees it.
#[derive(Debug, Clone, Copy, PartialEq, Eq, Structural)]
pub enum Key {
    Char(char),
    Up,
    Down,
    Left,
    Right,
    Enter,
    Backspace,
    Esc,
    Other,
}

/// What one keystroke asks the model to do.
#[derive(Debug, Clone, Copy, PartialEq, Eq, Structural)]
pub enum Command {
    Quit,
    EnterInsert,
    LeaveInsert,
    MoveNext,
    MovePrevious,
    ScrollPreviewUp,
    ScrollPreviewDown,
    AwaitChord,
    MoveToTop,
    MoveToBottom,
    Activate,
    ClearFilter,
    AppendChar(char),
    RemoveChar,
    Nothing,
}

/// The key table. In `Normal` mode keys navigate: `q` quits, `i` and `/`
/// enter `Insert`, `j`/`k` and the arrows move the cursor, `h`/`l` and the
/// side arrows scroll the preview, `g` opens the go-to-top chord, `G`
/// jumps to the bottom, `Enter` activates, `Esc` clears the query. In
/// `Insert` mode characters extend the query, `Backspace` shortens it,
/// `Enter` activates and `Esc` returns to `Normal`.
pub open spec fn key_command(mode: Mode, key: Key) -> Command {
    match mode {
        Mode::Normal => match key {
            Key::Char(c) => if c == 'q' {
                Command::Quit
            } else if c == 'i' || c == '/' {
                Command::EnterInsert
            } else if c == 'j' {
                Command::MoveNext
            } else if c == 'k' {
                Command::MovePrevious
            } else if c == 'h' {
                Command::ScrollPreviewUp
            } else if c == 'l' {
                Command::ScrollPreviewDown
            } else if c == 'g' {
                Command::AwaitChord
            } else if c == 'G' {
                Command::MoveToBottom
            } else {
                Command::Nothing
            },
            Key::Down => Command::MoveNext,
            Key::Up => Command::MovePrevious,
            Key::Left => Command::ScrollPreviewUp,
            Key::Right => Command::ScrollPreviewDown,
            Key::Enter => Command::Activate,
            Key::Esc => Command::ClearFilter,
            _ => Command::Nothing,
        },
        Mode::Insert => match key {
            Key::Esc => Command::LeaveInsert,
            Key::Enter => Command::Activate,
            Key::Backspace => Command::RemoveChar,
            Key::Char(c) => Command::AppendChar(c),
            _ => Command::Nothing,
        },
    }
}

/// The command a keystroke resolves to under the current mode, per
/// [`key_command`].
pub fn interpret_key(mode: Mode, key: Key) -> (c: Command)
    ensures
        c == key_command(mode, key),
{
    match mode {
        Mode::Normal => match key {
            Key::Char(ch) => {
                if ch == 'q' {
                    Command::Quit
                } else if ch == 'i' || ch == '/' {
                    Command::EnterInsert
                } else if ch == 'j' {
                    Command::MoveNext
                } else if ch == 'k' {
                    Command::MovePrevious
                } else if ch == 'h' {
                    Command::ScrollPreviewUp
                } else if ch == 'l' {
                    Command::ScrollPreviewDown
                } else if ch == 'g' {
                    Command::AwaitChord
                } else if ch == 'G' {
                    Command::MoveToBottom
                } else {
                    Command::Nothing
                }
            },
            Key::Down => Command::MoveNext,
            Key::Up => Command::MovePrevious,
            Key::Left => Command::ScrollPreviewUp,
            Key::Right => Command::ScrollPreviewDown,
            Key::Enter => Command::Activate,
            Key::Esc => Command::ClearFilter,
            _ => Command::Nothing,
        },
        Mode::Insert => match key {
            Key::Esc => Command::LeaveInsert,
            Key::Enter => Command::Activate,
            Key::Backspace => Command::RemoveChar,
            Key::Char(ch) => Command::AppendChar(ch),
            _ => Command::Nothing,
        },
    }
}

/// The second key of the `g` chord: another `g` jumps to the top, anything
/// else does nothing.
pub fn interpret_chord_key(key: Key) -> (c: Command)
    ensures
        c == (if key == Key::Char('g') {
            Command::MoveToTop
        } else {
            Command::Nothing
        }),
{
    match key {
        Key::Char(ch) => {
            if ch == 'g' {
                Command::MoveToTop
            } else {
                Command::Nothing
            }
        },
        _ => Command::Nothing,
    }
}

} // verus!
