use folder_browser::keys::Command;
use folder_browser::keys::Key;
use folder_browser::keys::interpret_chord_key;
use folder_browser::keys::interpret_key;
use folder_browser::Mode;

#[test]
fn normal_mode_key_table() {
    assert_eq!(interpret_key(Mode::Normal, Key::Char('q')), Command::Quit);
    assert_eq!(interpret_key(Mode::Normal, Key::Char('i')), Command::EnterInsert);
    assert_eq!(interpret_key(Mode::Normal, Key::Char('/')), Command::EnterInsert);
    assert_eq!(interpret_key(Mode::Normal, Key::Char('j')), Command::MoveNext);
    assert_eq!(interpret_key(Mode::Normal, Key::Down), Command::MoveNext);
    assert_eq!(interpret_key(Mode::Normal, Key::Char('k')), Command::MovePrevious);
    assert_eq!(interpret_key(Mode::Normal, Key::Up), Command::MovePrevious);
    assert_eq!(interpret_key(Mode::Normal, Key::Char('h')), Command::ScrollPreviewUp);
    assert_eq!(interpret_key(Mode::Normal, Key::Left), Command::ScrollPreviewUp);
    assert_eq!(interpret_key(Mode::Normal, Key::Char('l')), Command::ScrollPreviewDown);
    assert_eq!(interpret_key(Mode::Normal, Key::Right), Command::ScrollPreviewDown);
    assert_eq!(interpret_key(Mode::Normal, Key::Char('g')), Command::AwaitChord);
    assert_eq!(interpret_key(Mode::Normal, Key::Char('G')), Command::MoveToBottom);
    assert_eq!(interpret_key(Mode::Normal, Key::Enter), Command::Activate);
    assert_eq!(interpret_key(Mode::Normal, Key::Esc), Command::ClearFilter);
    assert_eq!(interpret_key(Mode::Normal, Key::Char('x')), Command::Nothing);
    assert_eq!(interpret_key(Mode::Normal, Key::Backspace), Command::Nothing);
}

#[test]
fn insert_mode_key_table() {
    assert_eq!(interpret_key(Mode::Insert, Key::Esc), Command::LeaveInsert);
    assert_eq!(interpret_key(Mode::Insert, Key::Enter), Command::Activate);
    assert_eq!(interpret_key(Mode::Insert, Key::Backspace), Command::RemoveChar);
    assert_eq!(interpret_key(Mode::Insert, Key::Char('q')), Command::AppendChar('q'));
    assert_eq!(interpret_key(Mode::Insert, Key::Up), Command::Nothing);
}

#[test]
fn go_to_top_needs_the_double_g_chord() {
    assert_eq!(interpret_chord_key(Key::Char('g')), Command::MoveToTop);
    assert_eq!(interpret_chord_key(Key::Char('x')), Command::Nothing);
    assert_eq!(interpret_chord_key(Key::Enter), Command::Nothing);
}
