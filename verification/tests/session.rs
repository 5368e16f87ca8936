use d3os::kernel::open_objects::OpenOptions;
use d3os::session::control::{
    record_read, CtlRecord, TerminalMode, WaitState, CTL_RECORD_SIZE, CTL_VERSION,
};
use d3os::session::endpoints::{
    line_read, print, Endpoint, InputEndpoints, PrintStep, Writer, LINE_BUFFER,
};
use d3os::session::env::var;
use d3os::session::manager::{
    live_mask_from_ids, manager_record_read, ManagerCtl, CLOSE_ACTIVE, MANAGER_CTL_SIZE, NEW_TAB,
    NEXT_TAB, PREV_TAB,
};
use d3os::session::mux::{published, EditEffect, OutputEffect, SessionMux, NO_ACTIVE};
use d3os::session::path::{cmd_path, ctl_path, Session};
use d3os::session::replay::{first_read, second_read, EventRead, ReplayBuffer, RING_CAPACITY};
use d3os::session::screen::SessionScreen;
use d3os::session::state::{
    session_descriptor, ManagerAction, ManagerState, SuperviseStep, MAX_SESSIONS,
};
use d3os::terminal::model::{Damage, ScreenSize};
use d3os::worker::canonical::{display_columns, CanonicalAction};

const SIZE: ScreenSize = ScreenSize { cols: 20, rows: 5 };

#[test]
fn control_records_have_a_fixed_layout() {
    let mut record = CtlRecord::new(TerminalMode::Fluid, WaitState::Waiting);
    record.rows = 0x0102;
    record.cols = 0x0304;
    let bytes = record.encode();
    assert_eq!(bytes[..9], [CTL_VERSION, 1, 1, 0, 0x02, 0x01, 0x04, 0x03, 0]);
    assert_eq!(bytes[8..], [0u8; 24]);
    let back = CtlRecord::decode(&bytes);
    assert_eq!(back, record);
}

#[test]
fn control_records_come_back_from_their_bytes() {
    for mode in [TerminalMode::Canonical, TerminalMode::Fluid, TerminalMode::Raw] {
        for wait in [WaitState::Idle, WaitState::Waiting] {
            let record = CtlRecord::new(mode, wait);
            assert!(record.is_published());
            assert_eq!(CtlRecord::decode(&record.encode()), record);
        }
    }
    assert_eq!(TerminalMode::from_byte(TerminalMode::Raw.to_byte()), TerminalMode::Raw);
    assert_eq!(WaitState::from_byte(7), WaitState::Idle);
    assert_eq!(WaitState::from_byte(WaitState::Waiting.to_byte()), WaitState::Waiting);
}

#[test]
fn incomplete_control_records_are_unpublished() {
    let bytes = CtlRecord::new(TerminalMode::Raw, WaitState::Waiting).encode();
    assert_eq!(CtlRecord::decode(&bytes[..31]), CtlRecord::empty());
    assert_eq!(CtlRecord::decode(&[0u8; 32]), CtlRecord::empty());
    assert!(!CtlRecord::empty().is_published());
    assert_eq!(record_read(&bytes, CTL_RECORD_SIZE - 1), CtlRecord::empty());
    assert_eq!(record_read(&bytes, CTL_RECORD_SIZE).mode, TerminalMode::Raw);
    assert!(published(CtlRecord::empty()).is_none());
    assert!(published(record_read(&bytes, CTL_RECORD_SIZE)).is_some());
}

#[test]
fn the_live_mask_has_a_bit_for_each_id() {
    let mask = live_mask_from_ids(&vec![0, 9, 255]);
    assert_eq!((mask[0], mask[1], mask[31]), (1, 2, 128));
    let record = ManagerCtl::new(9, 3, 7, mask);
    assert!(record.is_live(9) && record.is_live(255) && !record.is_live(8));
    assert_eq!(record.live_ids(), vec![0, 9, 255]);
    assert_eq!(ManagerCtl::empty().live_ids(), Vec::<u8>::new());
}

#[test]
fn manager_records_come_back_from_their_bytes() {
    let record = ManagerCtl::new(4, 2, 250, live_mask_from_ids(&vec![1, 4]));
    let bytes = record.encode();
    assert_eq!(bytes[..5], [2, 4, 2, 250, 0b10010]);
    let back = ManagerCtl::decode(&bytes);
    assert!(back.is_published());
    assert_eq!((back.active_id, back.session_count, back.generation), (4, 2, 250));
    assert_eq!(back.live_ids(), vec![1, 4]);
    assert!(!ManagerCtl::decode(&bytes[..39]).is_published());
    assert!(!manager_record_read(&bytes, MANAGER_CTL_SIZE - 1).is_published());
    assert_eq!(manager_record_read(&bytes, MANAGER_CTL_SIZE).live_ids(), vec![1, 4]);
}

#[test]
fn sessions_are_found_by_their_descriptor() {
    let session = Session::with_id(12);
    assert_eq!(session.base_path(), "/term/12");
    assert_eq!(session.in_path(), "/term/12/in");
    assert_eq!(session.out_path(), "/term/12/out");
    assert_eq!(session.ctl_path(), "/term/12/ctl");
    let base = |d: &str| Session::from_descriptor(d).map(|s| s.base_path().clone());
    assert_eq!(base(" 7\n"), Some("/term/7".to_owned()));
    assert_eq!(base("+7"), Some("/term/7".to_owned()));
    assert_eq!(base("007"), Some("/term/7".to_owned()));
    assert_eq!(base("18446744073709551615"), Some("/term/18446744073709551615".to_owned()));
    assert_eq!(base("18446744073709551616"), None);
    assert_eq!(base(""), None);
    assert_eq!(base("-1"), None);
    assert_eq!(base("1 2"), None);
    assert_eq!(Session::current(None).base_path(), "/term/0");
    assert_eq!(Session::current(Some("x".to_owned())).base_path(), "/term/0");
    assert_eq!(Session::current(Some("3".to_owned())).base_path(), "/term/3");
    assert_eq!(ctl_path(), "/term/manager/ctl");
    assert_eq!(cmd_path(), "/term/manager/cmd");
}

#[test]
fn a_descriptor_leads_back_to_its_session() {
    let entry = session_descriptor(42);
    assert_eq!(entry, "D3OS_TERM_SESSION=42");
    let value = var(&vec![entry.into_bytes()], "D3OS_TERM_SESSION").unwrap();
    assert_eq!(Session::current(Some(value)).base_path(), "/term/42");
}

#[test]
fn variables_are_looked_up_in_order() {
    let entries: Vec<Vec<u8>> = vec![
        b"PATH".to_vec(),
        vec![0xff, b'=', b'x'],
        b"A=1=2".to_vec(),
        b"A=3".to_vec(),
        b"=empty".to_vec(),
        "\u{e4}=\u{4e2d}".as_bytes().to_vec(),
    ];
    assert_eq!(var(&entries, "A"), Some("1=2".to_owned()));
    assert_eq!(var(&entries, ""), Some("empty".to_owned()));
    assert_eq!(var(&entries, "\u{e4}"), Some("\u{4e2d}".to_owned()));
    assert_eq!(var(&entries, "PATH"), None);
    assert_eq!(var(&entries, "B"), None);
}

#[test]
fn a_new_session_gets_the_next_id() {
    let mut state = ManagerState::new();
    assert_eq!(state.live_ids(), vec![0]);
    for id in 1..MAX_SESSIONS as u8 {
        assert_eq!(state.handle_command(NEW_TAB), ManagerAction::Created(id));
    }
    assert_eq!(state.handle_command(NEW_TAB), ManagerAction::Ignore);
    assert_eq!(state.live_ids(), vec![0, 1, 2, 3, 4, 5, 6, 7]);
    let record = state.publish_ctl();
    assert_eq!((record.active_id, record.session_count, record.generation), (7, 8, 1));
    assert_eq!(record.live_ids(), state.live_ids());
}

#[test]
fn ids_are_never_given_out_twice() {
    let mut state = ManagerState::new();
    let mut created: Vec<u8> = vec![0];
    for _ in 0..300 {
        if let ManagerAction::Created(id) = state.handle_command(NEW_TAB) {
            assert!(!created.contains(&id));
            created.push(id);
            state.handle_command(CLOSE_ACTIVE);
        }
    }
    assert_eq!(created.len(), 256);
    assert_eq!(state.handle_command(NEW_TAB), ManagerAction::Ignore);
    assert_eq!(state.live_ids(), vec![0]);
}

#[test]
fn supervisors_restart_until_the_session_is_closed() {
    let mut state = ManagerState::new();
    assert_eq!(state.supervise_step(0, false), SuperviseStep::Start);
    assert_eq!(state.supervise_step(0, true), SuperviseStep::Sleep(500));
    assert_eq!(state.supervise_step(1, false), SuperviseStep::Stop);
    assert_eq!(state.handle_command(NEW_TAB), ManagerAction::Created(1));
    state.set_shell_tid(1, 9);
    assert_eq!(state.supervise_step(1, false), SuperviseStep::Start);
    assert_eq!(state.handle_command(CLOSE_ACTIVE), ManagerAction::Closed(9));
    assert_eq!(state.supervise_step(1, true), SuperviseStep::Sleep(500));
    assert_eq!(state.supervise_step(1, false), SuperviseStep::Stop);
    assert_eq!(state.supervise_step(0, false), SuperviseStep::Start);
}

#[test]
fn ids_stay_fresh_through_shells_and_records() {
    let mut state = ManagerState::new();
    for id in 1..=20u8 {
        assert_eq!(state.handle_command(NEW_TAB), ManagerAction::Created(id));
        state.publish_ctl();
        state.set_shell_tid(id, id as usize);
        state.set_shell_tid(id - 1, 99);
        assert_eq!(state.handle_command(CLOSE_ACTIVE), ManagerAction::Closed(id as usize));
        assert_eq!(state.publish_ctl().active_id, 0);
    }
}

#[test]
fn closing_selects_the_lowest_session() {
    let mut state = ManagerState::new();
    assert_eq!(state.handle_command(CLOSE_ACTIVE), ManagerAction::Ignore);
    state.handle_command(NEW_TAB);
    state.handle_command(NEW_TAB);
    state.set_shell_tid(2, 99);
    state.set_shell_tid(5, 1);
    assert_eq!(state.handle_command(CLOSE_ACTIVE), ManagerAction::Closed(99));
    assert!(!state.is_alive(2) && state.is_alive(1));
    assert_eq!(state.publish_ctl().active_id, 0);
    assert_eq!(state.handle_command(CLOSE_ACTIVE), ManagerAction::Closed(0));
    assert_eq!(state.live_ids(), vec![1]);
    assert_eq!(state.handle_command(77), ManagerAction::Ignore);
}

#[test]
fn switching_goes_round() {
    let mut state = ManagerState::new();
    assert_eq!(state.handle_command(NEXT_TAB), ManagerAction::Ignore);
    state.handle_command(NEW_TAB);
    state.handle_command(NEW_TAB);
    assert_eq!(state.handle_command(NEXT_TAB), ManagerAction::Switched);
    assert_eq!(state.publish_ctl().active_id, 0);
    state.handle_command(PREV_TAB);
    assert_eq!(state.publish_ctl().active_id, 2);
    state.handle_command(PREV_TAB);
    assert_eq!(state.publish_ctl().active_id, 1);
    state.handle_command(NEXT_TAB);
    let record = state.publish_ctl();
    assert_eq!((record.active_id, record.generation), (2, 4));
}

#[test]
fn the_generation_wraps() {
    let mut state = ManagerState::new();
    for _ in 0..255 {
        state.publish_ctl();
    }
    assert_eq!(state.publish_ctl().generation, 0);
}

#[test]
fn screens_show_output_and_edits() {
    let mut screen = SessionScreen::new(SIZE);
    assert!(screen.feed_checked(b"$ ").is_some());
    let (damage, line) = screen.edit_checked(CanonicalAction::Insert('x')).unwrap();
    assert_eq!(damage.dirty_range(), Some((1, 1)));
    assert!(line.is_none());
    assert_eq!(screen.model().grid[1].cells[2].value, 'x');
    let (_, line) = screen.edit_checked(CanonicalAction::Submit).unwrap();
    assert_eq!(line, Some(b"x".to_vec()));
    assert_eq!(screen.model().cursor.row, 2);
    let (damage, _) = screen.edit_checked(CanonicalAction::Backspace).unwrap();
    assert_eq!(damage, Damage::none());
    screen.out = Some(4);
    screen.in_writer = Some(9);
    assert_eq!(screen.open_handles(), vec![4, 9]);
}

/// The text of a screen row up to its first blank cell, without the cells that
/// continue a wide glyph.
fn shown(screen: &SessionScreen, row: usize) -> String {
    let cells = &screen.model().grid[row].cells;
    cells.iter().take_while(|c| c.value != '\0' || c.width == 0).filter(|c| c.width > 0)
        .map(|c| c.value).collect()
}

#[test]
fn the_echo_keeps_the_screen_in_step() {
    let mut screen = SessionScreen::new(SIZE);
    screen.feed_checked(b"\x1b[32m$\x1b[0m ");
    let mut line = String::new();
    let mut at: usize = 0;
    let steps = [
        CanonicalAction::Insert('a'),
        CanonicalAction::Insert('\u{4e2d}'),
        CanonicalAction::Insert('c'),
        CanonicalAction::Left,
        CanonicalAction::Left,
        CanonicalAction::Insert('b'),
        CanonicalAction::Delete,
        CanonicalAction::Home,
        CanonicalAction::Insert('\u{20ac}'),
        CanonicalAction::Right,
        CanonicalAction::Backspace,
        CanonicalAction::End,
        CanonicalAction::Right,
        CanonicalAction::Insert('z'),
        CanonicalAction::Home,
        CanonicalAction::Backspace,
    ];
    for action in steps {
        assert!(screen.edit_checked(action).is_some());
        let mut chars: Vec<char> = line.chars().collect();
        match action {
            CanonicalAction::Insert(c) => {
                chars.insert(at, c);
                at += 1;
            }
            CanonicalAction::Backspace if at > 0 => {
                at -= 1;
                chars.remove(at);
            }
            CanonicalAction::Delete if at < chars.len() => {
                chars.remove(at);
            }
            CanonicalAction::Left if at > 0 => at -= 1,
            CanonicalAction::Right if at < chars.len() => at += 1,
            CanonicalAction::Home => at = 0,
            CanonicalAction::End => at = chars.len(),
            _ => {}
        }
        line = chars.iter().collect();
        let head: String = chars[..at].iter().collect();
        assert_eq!(shown(&screen, 1), format!("$ {}", line));
        assert_eq!(screen.model().cursor.col as usize, 2 + display_columns(&head));
    }
    assert_eq!(line, "\u{20ac}bcz");
    let (_, sent) = screen.edit_checked(CanonicalAction::Submit).unwrap();
    assert_eq!(sent, Some(line.clone().into_bytes()));
    assert_eq!(shown(&screen, 1), format!("$ {}", line));
    assert_eq!((screen.model().cursor.col, screen.model().cursor.row), (0, 2));
}

#[test]
fn a_submitted_line_scrolls_up_with_the_screen() {
    let mut screen = SessionScreen::new(ScreenSize { cols: 10, rows: 3 });
    screen.feed_checked(b"\n");
    screen.edit_checked(CanonicalAction::Insert('x'));
    screen.edit_checked(CanonicalAction::Submit);
    assert_eq!(shown(&screen, 1), "x");
    assert_eq!((screen.model().cursor.col, screen.model().cursor.row), (0, 2));
    let mut narrow = SessionScreen::new(ScreenSize { cols: 10, rows: 2 });
    narrow.edit_checked(CanonicalAction::Insert('y'));
    narrow.edit_checked(CanonicalAction::Submit);
    assert_eq!(narrow.model().scrollback.len(), 1);
    assert_eq!(narrow.model().scrollback[0].cells[0].value, 'y');
}

#[test]
fn an_echo_that_cannot_be_shown_is_refused() {
    let mut screen = SessionScreen::new(SIZE);
    screen.edit_checked(CanonicalAction::Insert('a'));
    screen.feed_checked(b"\x1b[H");
    assert!(screen.edit_checked(CanonicalAction::Backspace).is_none());
    screen.feed_checked(b"\x1b[1;1H");
    assert!(screen.edit_checked(CanonicalAction::Backspace).is_some());
}

fn record(active: u8, generation: u8, ids: Vec<u8>) -> ManagerCtl {
    ManagerCtl::new(active, ids.len() as u8, generation, live_mask_from_ids(&ids))
}

#[test]
fn a_snapshot_adds_removes_and_selects() {
    let mut mux = SessionMux::new();
    assert_eq!(mux.active, NO_ACTIVE);
    assert!(mux.poll_snapshot(&ManagerCtl::empty(), SIZE).is_none());
    let effect = mux.poll_snapshot(&record(3, 1, vec![1, 3]), SIZE).unwrap();
    assert_eq!(effect.added, vec![1, 3]);
    assert!(effect.removed.is_empty() && effect.present);
    assert_eq!((mux.active, mux.tabs()), (3, vec![1, 3]));
    assert!(mux.poll_snapshot(&record(1, 1, vec![1]), SIZE).is_none());
    mux.set_endpoints(3, Some(30), Some(31));
    let effect = mux.poll_snapshot(&record(9, 2, vec![1, 4]), SIZE).unwrap();
    assert_eq!(effect.added, vec![4]);
    assert_eq!(effect.removed.len(), 1);
    assert_eq!(effect.removed[0].open_handles(), vec![30, 31]);
    assert!(!effect.present);
    assert_eq!(mux.active, NO_ACTIVE);
    let effect = mux.poll_snapshot(&record(4, 3, vec![1, 4]), SIZE).unwrap();
    assert!(effect.present && effect.added.is_empty());
    assert_eq!(mux.active, 4);
}

#[test]
fn only_the_active_session_is_drawn() {
    let mut mux = SessionMux::new();
    mux.poll_snapshot(&record(1, 1, vec![1, 2]), SIZE);
    mux.set_endpoints(1, Some(10), Some(11));
    assert_eq!((mux.out_handle(1), mux.out_handle(2), mux.out_handle(3)), (Some(10), None, None));
    assert!(matches!(mux.take_output(1, b"a"), OutputEffect::Present(_)));
    assert_eq!(mux.take_output(2, b"bb"), OutputEffect::Quiet);
    assert_eq!(mux.take_output(1, b""), OutputEffect::Quiet);
    assert_eq!(mux.take_output(7, b"c"), OutputEffect::Quiet);
    assert_eq!(mux.take_output(1, b"\x1b[9A"), OutputEffect::Refused);
    assert_eq!(mux.sessions[&2].model().cursor.col, 2);
    assert_eq!(mux.sessions[&1].model().cursor.col, 1);
}

#[test]
fn input_goes_to_the_active_session() {
    let mut mux = SessionMux::new();
    assert!(matches!(mux.handle_canonical(CanonicalAction::Left), EditEffect::NoSession));
    mux.poll_snapshot(&record(1, 1, vec![1, 2]), SIZE);
    mux.set_endpoints(1, None, Some(11));
    assert_eq!(mux.active_ctl(), Some(11));
    let waiting = Some(CtlRecord::new(TerminalMode::Canonical, WaitState::Waiting));
    let idle = Some(CtlRecord::new(TerminalMode::Canonical, WaitState::Idle));
    assert!(!mux.ensure_active_in_writer(idle));
    assert!(!mux.ensure_active_in_writer(None));
    assert!(mux.ensure_active_in_writer(waiting));
    assert_eq!(mux.deliver(), None);
    mux.set_in_writer(Some(12));
    assert!(!mux.ensure_active_in_writer(waiting));
    assert_eq!(mux.deliver(), Some(12));
    match mux.handle_canonical(CanonicalAction::Insert('q')) {
        EditEffect::Done(Some(damage), None) => assert_eq!(damage.dirty_range(), Some((1, 1))),
        _ => panic!("the edit was not made"),
    }
    assert!(matches!(
        mux.handle_canonical(CanonicalAction::Right),
        EditEffect::Done(None, None)
    ));
    match mux.handle_canonical(CanonicalAction::Submit) {
        EditEffect::Done(_, Some(line)) => assert_eq!(line, b"q".to_vec()),
        _ => panic!("the line was not submitted"),
    }
}

#[test]
fn an_unfinished_line_survives_a_switch() {
    let mut mux = SessionMux::new();
    mux.poll_snapshot(&record(1, 1, vec![1, 2]), SIZE);
    mux.handle_canonical(CanonicalAction::Insert('a'));
    mux.poll_snapshot(&record(2, 2, vec![1, 2]), SIZE);
    mux.handle_canonical(CanonicalAction::Insert('b'));
    mux.poll_snapshot(&record(1, 3, vec![1, 2]), SIZE);
    match mux.handle_canonical(CanonicalAction::Submit) {
        EditEffect::Done(_, Some(line)) => assert_eq!(line, b"a".to_vec()),
        _ => panic!("the line was not submitted"),
    }
}

#[test]
fn a_replay_buffer_keeps_the_latest_output() {
    let mut buffer = ReplayBuffer::new();
    buffer.push_output(b"abc");
    assert_eq!(buffer.replay(), b"abc".to_vec());
    buffer.push_output(&vec![b'x'; RING_CAPACITY - 2]);
    let bytes = buffer.replay();
    assert_eq!(bytes.len(), RING_CAPACITY);
    assert_eq!(bytes[..3], *b"bcx");
}

#[test]
fn events_are_read_in_frames() {
    assert_eq!(first_read(&vec![]), EventRead::Stop);
    assert_eq!(first_read(&vec![1]), EventRead::ReadOn);
    assert_eq!(first_read(&vec![1, 2]), EventRead::Frame(1, 2));
    assert_eq!(second_read(1, &vec![]), EventRead::Stop);
    assert_eq!(second_read(1, &vec![5]), EventRead::Frame(1, 5));
}

#[test]
fn endpoints_are_opened_once() {
    let session = Session::with_id(3);
    assert_eq!(Endpoint::Control.path(&session), "/term/3/ctl");
    assert_eq!(Endpoint::Output.path(&session), "/term/3/out");
    assert_eq!(Endpoint::input(true).path(&session), "/term/3/in");
    let none = OpenOptions {
        read_only: false,
        write_only: false,
        read_write: false,
        directory: false,
        nonblock: false,
    };
    assert_eq!(Endpoint::Control.options(), OpenOptions { read_write: true, ..none });
    assert_eq!(Endpoint::Output.options(), OpenOptions { write_only: true, ..none });
    assert_eq!(Endpoint::input(false).options(), OpenOptions { read_only: true, ..none });
    assert_eq!(
        Endpoint::input(true).options(),
        OpenOptions { read_only: true, nonblock: true, ..none }
    );
    let mut input = InputEndpoints::new();
    assert_eq!(input.opened(Endpoint::Control, None), None);
    assert_eq!(input.opened(Endpoint::Control, Some(5)), Some(5));
    assert_eq!(input.opened(Endpoint::Control, Some(6)), Some(5));
    assert_eq!(input.handle(Endpoint::Control), Some(5));
    assert_eq!(input.handle(Endpoint::BlockingInput), None);
    assert_eq!(input.opened(Endpoint::BlockingInput, Some(7)), Some(7));
    assert_eq!(input.opened(Endpoint::PolledInput, Some(8)), Some(8));
    assert_eq!(input.handle(Endpoint::Output), None);
}

#[test]
fn printing_opens_the_output_first() {
    let mut writer = Writer::new();
    assert_eq!(print(&writer, ""), PrintStep::Done);
    assert_eq!(print(&writer, "x"), PrintStep::Open);
    assert_eq!(writer.opened(Some(4)), Some(4));
    assert_eq!(print(&writer, "x"), PrintStep::Write(4));
    assert_eq!(print(&writer, ""), PrintStep::Done);
}

#[test]
fn lines_are_read_as_text() {
    let mut buffer = [0u8; LINE_BUFFER];
    buffer[..4].copy_from_slice("a\u{4e2d}".as_bytes());
    assert_eq!(line_read(&buffer, Some(4)), "a\u{4e2d}");
    assert_eq!(line_read(&buffer, Some(2)), "a\u{fffd}");
    assert_eq!(line_read(&buffer, Some(0)), "");
    assert_eq!(line_read(&buffer, None), "");
}
