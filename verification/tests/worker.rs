use d3os::session::control::{CtlRecord, TerminalMode, WaitState};
use d3os::session::manager::{CLOSE_ACTIVE, NEW_TAB, NEXT_TAB, PREV_TAB};
use d3os::worker::canonical::{
    display_columns, move_left, move_right, CanonicalAction, CanonicalEditor,
};
use d3os::worker::cursor::Cursor;
use d3os::worker::input::{intercept_reserved_key, resolve_mode, InputAction, InputObserver};
use d3os::worker::key::{
    buffer_fluid, buffer_raw, canonical_action, read_fluid, read_raw, DecodedKeyType, FrameStep,
    Key, KeyFrame, ARROW_LEFT, ARROW_RIGHT, END, HKEY_CLOSE_TAB, HKEY_NEW_TAB, HKEY_NEXT_TAB,
    HKEY_PREV_TAB, HKEY_TOGGLE_TERMINAL_WINDOW, HOME,
};
use pc_keyboard::{KeyCode, KeyEvent, KeyState};

fn typed(text: &str) -> CanonicalEditor {
    let mut editor = CanonicalEditor::new();
    for c in text.chars() {
        editor.apply(CanonicalAction::Insert(c));
    }
    editor
}

fn submitted(editor: &mut CanonicalEditor) -> String {
    String::from_utf8(editor.apply(CanonicalAction::Submit).submit.unwrap()).unwrap()
}

#[test]
fn inserts_and_echoes() {
    let mut editor = CanonicalEditor::new();
    let effect = editor.apply(CanonicalAction::Insert('a'));
    assert_eq!(effect.echo, "a\x1b[0K");
    assert!(effect.submit.is_none());
    editor.apply(CanonicalAction::Insert('c'));
    assert_eq!(editor.apply(CanonicalAction::Left).echo, "\x1b[1D");
    assert_eq!(editor.apply(CanonicalAction::Insert('b')).echo, "b\x1b[0Kc\x1b[1D");
    assert_eq!(submitted(&mut editor), "abc");
}

#[test]
fn wide_characters_take_two_columns() {
    let mut editor = typed("x\u{4e2d}");
    assert_eq!(editor.apply(CanonicalAction::Left).echo, "\x1b[2D");
    assert_eq!(editor.apply(CanonicalAction::Right).echo, "\x1b[2C");
    assert_eq!(editor.apply(CanonicalAction::Home).echo, "\x1b[3D");
    assert_eq!(editor.apply(CanonicalAction::End).echo, "\x1b[3C");
    assert_eq!(editor.apply(CanonicalAction::Backspace).echo, "\x1b[2D\x1b[0K");
    assert_eq!(display_columns("x\u{4e2d}"), 3);
}

#[test]
fn moves_stop_at_the_ends() {
    let mut editor = typed("a");
    assert_eq!(editor.apply(CanonicalAction::Right).echo, "");
    assert_eq!(editor.apply(CanonicalAction::End).echo, "");
    editor.apply(CanonicalAction::Left);
    assert_eq!(editor.apply(CanonicalAction::Left).echo, "");
    assert_eq!(editor.apply(CanonicalAction::Home).echo, "");
    assert_eq!(editor.apply(CanonicalAction::Backspace).echo, "");
    assert_eq!(editor.apply(CanonicalAction::Right).echo, "\x1b[1C");
    assert_eq!(editor.apply(CanonicalAction::Delete).echo, "");
}

#[test]
fn deletes_on_either_side() {
    let mut editor = typed("abcd");
    editor.apply(CanonicalAction::Left);
    editor.apply(CanonicalAction::Left);
    assert_eq!(editor.apply(CanonicalAction::Delete).echo, "\x1b[0Kd\x1b[1D");
    assert_eq!(editor.apply(CanonicalAction::Backspace).echo, "\x1b[1D\x1b[0Kd\x1b[1D");
    assert_eq!(submitted(&mut editor), "ad");
}

#[test]
fn submitting_empties_the_line() {
    let mut editor = typed("a\u{e4}");
    editor.apply(CanonicalAction::Home);
    let effect = editor.apply(CanonicalAction::Submit);
    assert_eq!(effect.echo, "\x1b[2C\n");
    assert_eq!(effect.submit, Some("a\u{e4}".as_bytes().to_vec()));
    let effect = editor.apply(CanonicalAction::Submit);
    assert_eq!((effect.echo.as_str(), effect.submit), ("\n", Some(Vec::new())));
}

#[test]
fn inserting_and_backspacing_gives_the_line_back() {
    let mut editor = typed("ab");
    editor.apply(CanonicalAction::Left);
    editor.apply(CanonicalAction::Insert('\u{4e2d}'));
    editor.apply(CanonicalAction::Backspace);
    editor.apply(CanonicalAction::Left);
    editor.apply(CanonicalAction::Right);
    editor.apply(CanonicalAction::Insert('!'));
    assert_eq!(submitted(&mut editor), "a!b");
}

#[test]
fn the_line_never_outgrows_its_bound() {
    let mut editor = typed(&"x".repeat(255));
    assert_eq!(editor.apply(CanonicalAction::Insert('\u{e4}')).echo, "");
    assert_ne!(editor.apply(CanonicalAction::Insert('y')).echo, "");
    assert_eq!(editor.apply(CanonicalAction::Insert('z')).echo, "");
    assert_eq!(submitted(&mut editor).len(), 256);
}

#[test]
fn a_copy_is_edited_on_its_own() {
    let mut editor = typed("ab");
    let mut copy = editor.copy();
    copy.apply(CanonicalAction::Insert('c'));
    assert_eq!(submitted(&mut copy), "abc");
    assert_eq!(submitted(&mut editor), "ab");
}

#[test]
fn moves_of_no_columns_are_left_out() {
    assert_eq!(move_left(0), "");
    assert_eq!(move_right(0), "");
    assert_eq!(move_left(12), "\x1b[12D");
    assert_eq!(move_right(3), "\x1b[3C");
}

#[test]
fn the_cursor_toggles_every_interval() {
    let mut cursor = Cursor::new();
    assert!(cursor.tick(0));
    assert!(!cursor.tick(249));
    assert!(cursor.tick(250));
    assert!(!cursor.tick(499));
    assert!(cursor.tick(700));
}

#[test]
fn key_codes_are_those_of_the_keyboard() {
    assert_eq!(KeyCode::ArrowLeft as u8, ARROW_LEFT);
    assert_eq!(KeyCode::ArrowRight as u8, ARROW_RIGHT);
    assert_eq!(KeyCode::Home as u8, HOME);
    assert_eq!(KeyCode::End as u8, END);
    assert_eq!(KeyCode::F1 as u8, HKEY_TOGGLE_TERMINAL_WINDOW);
    assert_eq!(KeyCode::F2 as u8, HKEY_NEW_TAB);
    assert_eq!(KeyCode::F3 as u8, HKEY_CLOSE_TAB);
    assert_eq!(KeyCode::F4 as u8, HKEY_NEXT_TAB);
    assert_eq!(KeyCode::F5 as u8, HKEY_PREV_TAB);
}

#[test]
fn keys_travel_in_frames() {
    assert_eq!(buffer_fluid(Key::Unicode('a')), (0, 97));
    assert_eq!(buffer_fluid(Key::Unicode('\u{141}')), (0, 0x41));
    assert_eq!(buffer_fluid(Key::Raw(7)), (1, 7));
    assert_eq!(read_fluid((0, 97)), Key::Unicode('a'));
    assert_eq!(read_fluid((1, 7)), Key::Raw(7));
    assert_eq!(buffer_raw(0x1234), (0x34, 0x12));
    assert_eq!(read_raw((0x34, 0x12)), 0x1234);
    assert_eq!(DecodedKeyType::RawKey.to_byte(), 1);
    assert_eq!(DecodedKeyType::from_byte(0), DecodedKeyType::Unicode);
}

#[test]
fn frames_are_completed() {
    let mut frame = KeyFrame::new();
    assert_eq!(frame.missing(), 2);
    assert_eq!(frame.take(&vec![]), FrameStep::NoKey);
    assert_eq!(frame.take(&vec![5]), FrameStep::ReadOn);
    assert_eq!(frame.missing(), 1);
    assert_eq!(frame.take(&vec![]), FrameStep::ReadOn);
    assert_eq!(frame.take(&vec![6]), FrameStep::Complete(5, 6));
    assert_eq!(frame.take(&vec![7, 8]), FrameStep::Complete(7, 8));
}

#[test]
fn keys_ask_for_edits() {
    assert_eq!(canonical_action(Key::Raw(ARROW_LEFT)), Some(CanonicalAction::Left));
    assert_eq!(canonical_action(Key::Raw(ARROW_RIGHT)), Some(CanonicalAction::Right));
    assert_eq!(canonical_action(Key::Raw(HOME)), Some(CanonicalAction::Home));
    assert_eq!(canonical_action(Key::Raw(END)), Some(CanonicalAction::End));
    assert_eq!(canonical_action(Key::Raw(0)), None);
    assert_eq!(canonical_action(Key::Unicode('\x1b')), None);
    assert_eq!(canonical_action(Key::Unicode('\n')), Some(CanonicalAction::Submit));
    assert_eq!(canonical_action(Key::Unicode('\x08')), Some(CanonicalAction::Backspace));
    assert_eq!(canonical_action(Key::Unicode('\x7f')), Some(CanonicalAction::Delete));
    assert_eq!(canonical_action(Key::Unicode('q')), Some(CanonicalAction::Insert('q')));
}

#[test]
fn hotkeys_are_reserved() {
    assert_eq!(
        intercept_reserved_key(Key::Raw(HKEY_TOGGLE_TERMINAL_WINDOW)),
        Some(InputAction::EnterGuiMode)
    );
    assert_eq!(
        intercept_reserved_key(Key::Raw(HKEY_NEW_TAB)),
        Some(InputAction::Command(NEW_TAB))
    );
    assert_eq!(
        intercept_reserved_key(Key::Raw(HKEY_CLOSE_TAB)),
        Some(InputAction::Command(CLOSE_ACTIVE))
    );
    assert_eq!(
        intercept_reserved_key(Key::Raw(HKEY_NEXT_TAB)),
        Some(InputAction::Command(NEXT_TAB))
    );
    assert_eq!(
        intercept_reserved_key(Key::Raw(HKEY_PREV_TAB)),
        Some(InputAction::Command(PREV_TAB))
    );
    assert_eq!(intercept_reserved_key(Key::Raw(0)), None);
    assert_eq!(intercept_reserved_key(Key::Unicode('\x01')), None);
}

fn waiting(mode: TerminalMode) -> Option<CtlRecord> {
    Some(CtlRecord::new(mode, WaitState::Waiting))
}

fn idle() -> Option<CtlRecord> {
    Some(CtlRecord::new(TerminalMode::Raw, WaitState::Idle))
}

#[test]
fn only_a_waiting_application_has_a_mode() {
    assert_eq!(resolve_mode(waiting(TerminalMode::Fluid)), Some(TerminalMode::Fluid));
    assert_eq!(resolve_mode(idle()), None);
    assert_eq!(resolve_mode(None), None);
}

#[test]
fn events_are_decoded_and_handled() {
    let mut input = InputObserver::new();
    let down = |code: KeyCode| KeyEvent::new(code, KeyState::Down);
    let up = |code: KeyCode| KeyEvent::new(code, KeyState::Up);
    let canonical = waiting(TerminalMode::Canonical);
    assert_eq!(
        input.run(down(KeyCode::A), 0x0102, canonical),
        InputAction::Edit(CanonicalAction::Insert('a'))
    );
    assert_eq!(input.run(up(KeyCode::A), 0x0103, canonical), InputAction::Ignore);
    // The left shift key is remembered; on this layout Y and Z change places.
    input.run(down(KeyCode::LShift), 0, canonical);
    assert_eq!(
        input.run(down(KeyCode::Y), 0, canonical),
        InputAction::Edit(CanonicalAction::Insert('Z'))
    );
    input.run(up(KeyCode::LShift), 0, canonical);
    assert_eq!(
        input.run(down(KeyCode::ArrowLeft), 0, canonical),
        InputAction::Edit(CanonicalAction::Left)
    );
    assert_eq!(
        input.run(down(KeyCode::A), 0, waiting(TerminalMode::Fluid)),
        InputAction::Deliver(0, 97)
    );
    assert_eq!(
        input.run(down(KeyCode::F2), 0, waiting(TerminalMode::Fluid)),
        InputAction::Command(NEW_TAB)
    );
    assert_eq!(
        input.run(down(KeyCode::A), 0x0102, waiting(TerminalMode::Raw)),
        InputAction::Deliver(2, 1)
    );
    assert_eq!(input.run(up(KeyCode::A), 0x0304, idle()), InputAction::Deliver(4, 3));
    assert_eq!(input.run(up(KeyCode::A), 0x0304, None), InputAction::Ignore);
    assert_eq!(input.run(down(KeyCode::A), 0x0304, idle()), InputAction::Ignore);
}

#[test]
fn a_release_matters_in_raw_mode_only() {
    let mut input = InputObserver::new();
    assert_eq!(input.handle(None, 0x0201, idle()), InputAction::Deliver(1, 2));
    input.handle(None, 0, waiting(TerminalMode::Canonical));
    assert_eq!(input.handle(None, 0x0201, idle()), InputAction::Ignore);
    assert_eq!(input.handle(Some(Key::Unicode('\x1b')), 0, waiting(TerminalMode::Canonical)),
        InputAction::Ignore);
}
