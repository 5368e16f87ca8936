use d3os::httpd::{handle, respond, ParseFault, Response, StatusCode};
use d3os::kernel::open_objects::Errno;
use d3os::pipetest::{
    child_dispatch, eof_report, epipe_exit_report, epipe_report, exit_report, foreign_env,
    foreign_report, leaks, pipe_made, soak_report, ChildRole, PipeMade, ReadStep, Received,
    Written,
};
use d3os::session::manager::{live_mask_from_ids, ManagerCtl};
use d3os::session::mux::NO_ACTIVE;
use d3os::session::control::{CtlRecord, TerminalMode, WaitState};
use d3os::session::replay::{EventCodes, EventKind, ReplaySessions};
use d3os::text::{byte_offset, char_index, char_width, string_bytes, to_decimal, to_number, trim};
use d3os::thread::{count, Functions, Thread};

fn sent(response: &Response) -> String {
    String::from_utf8(response.pieces().concat()).unwrap()
}

#[test]
fn get_is_answered() {
    let response = handle("GET");
    assert_eq!(response.status, StatusCode::Success);
    assert_eq!(
        sent(&response),
        "HTTP/1.1 200 OK\nConnection: close\nContent-Type: text/plain; charset=UTF-8\n\
         Server: D3OS httpd\n\nHello from D3OS!\n\n"
    );
    assert_eq!(response.pieces().len(), 7);
}

#[test]
fn other_methods_are_not_allowed() {
    for method in ["POST", "get", "GETS", ""] {
        let response = handle(method);
        assert_eq!(response.status, StatusCode::MethodNotAllowed);
        assert_eq!(
            sent(&response),
            format!(
                "HTTP/1.1 405 Method Not Allowed\nAllowed: GET\nConnection: close\n\
                 Server: D3OS httpd\n\nMethod not allowed: {}\n\n",
                method
            )
        );
    }
}

#[test]
fn headers_are_kept_in_order() {
    let mut response = Response::new(StatusCode::Success);
    response.insert("Date", "x");
    response.insert("Server", "y");
    response.insert("D", "z");
    response.insert("Zebra", "w");
    let names: Vec<&str> = response.headers.iter().map(|h| h.0.as_str()).collect();
    assert_eq!(names, vec!["Connection", "D", "Date", "Server", "Zebra"]);
    assert_eq!(response.headers[3].1, "y");
}

#[test]
fn requests_are_parsed() {
    let status = |bytes: &[u8]| respond(bytes).map(|r| r.map(|r| r.status));
    assert_eq!(status(b"GET / HTTP/1.1\r\nHost: x\r\n\r\n"), Ok(Some(StatusCode::Success)));
    assert_eq!(status(b"PUT / HTTP/1.1\r\n\r\n"), Ok(Some(StatusCode::MethodNotAllowed)));
    assert_eq!(status(b"GET / HT"), Ok(Some(StatusCode::Success)));
    assert_eq!(status(b"GE"), Ok(None));
    assert_eq!(status(b""), Ok(None));
    assert_eq!(status(b"G\x01T / HTTP/1.1\r\n\r\n"), Err(ParseFault::Token));
    assert_eq!(status(b"GET / HTTP/3.1\r\n\r\n"), Err(ParseFault::Version));
    assert_eq!(status(b"GET / HTTP/1.1\r\nA\x01: x\r\n\r\n"), Err(ParseFault::HeaderName));
    assert_eq!(status(b"GET / HTTP/1.1\r\nA: \x01\r\n\r\n"), Err(ParseFault::HeaderValue));
    assert_eq!(status(b"GET / HTTP/1.1\rX"), Err(ParseFault::NewLine));
    let many = |n: usize| {
        let mut request = b"GET / HTTP/1.1\r\n".to_vec();
        for _ in 0..n {
            request.extend_from_slice(b"A: b\r\n");
        }
        request.extend_from_slice(b"\r\n");
        request
    };
    assert_eq!(status(&many(64)), Ok(Some(StatusCode::Success)));
    assert_eq!(status(&many(65)), Err(ParseFault::TooManyHeaders));
}

#[test]
fn children_have_roles() {
    assert_eq!(child_dispatch("child-leak"), Some(ChildRole::Leak));
    assert_eq!(child_dispatch("child-writer"), Some(ChildRole::Writer));
    assert_eq!(child_dispatch("child-reader"), Some(ChildRole::Reader));
    assert_eq!(child_dispatch("child-foreign"), Some(ChildRole::Foreign));
    assert_eq!(child_dispatch("child"), None);
    assert_eq!(pipe_made(Ok(0)), PipeMade::Created);
    assert_eq!(pipe_made(Err(Errno::EEXIST)), PipeMade::AlreadyExists);
    assert_eq!(pipe_made(Err(Errno::ENOENT)), PipeMade::Failed(Errno::ENOENT));
}

#[test]
fn leaks_are_told_from_noise() {
    assert!(!leaks(3, 19) && leaks(3, 20) && !leaks(20, 3));
    assert_eq!(
        exit_report(3, 5),
        "TEST4: exit frees owned handles OK (base=3, after=5, delta=2)"
    );
    assert_eq!(
        exit_report(3, 67),
        "TEST4: FAIL exit leaked handles (base=3, after=67, delta=64)"
    );
    assert_eq!(
        soak_report(50, 9, 4),
        "TEST4: restart soak bounded OK (50 spawns, base=9, after=4, delta=0)"
    );
    assert_eq!(
        soak_report(49, 0, 17),
        "TEST4: FAIL restart soak leaked (49 spawns, base=0, after=17, delta=17)"
    );
}

#[test]
fn foreign_uses_are_judged() {
    let rejected = Err(Errno::EINVALH);
    assert_eq!(
        foreign_report(rejected, rejected, rejected),
        "TEST4: child rejected on foreign read/seek/close OK"
    );
    assert_eq!(
        foreign_report(rejected, Ok(12), Err(Errno::ENOTSUP)),
        "TEST4: FAIL foreign not rejected: read=Err(EINVALH) seek=Ok(12) close=Err(ENOTSUP)"
    );
    assert_eq!(
        foreign_env(17, "D3OS_TERM_SESSION", Some("2")),
        vec!["D3OS_TEST_HANDLE=17", "D3OS_TERM_SESSION=2"]
    );
    assert_eq!(foreign_env(17, "D3OS_TERM_SESSION", None), vec!["D3OS_TEST_HANDLE=17"]);
}

#[test]
fn ends_of_pipes_are_judged() {
    assert_eq!(eof_report(Ok(0), 1), "TEST4: reader EOF after writer exit OK (marker=1 bytes)");
    assert_eq!(eof_report(Ok(4), 1), "TEST4: FAIL unexpected 4 bytes after writer exit");
    assert_eq!(
        eof_report(Err(Errno::EBADF), 1),
        "TEST4: FAIL read error after writer exit: EBADF"
    );
    assert_eq!(
        epipe_exit_report(Err(Errno::EPIPE)),
        "TEST4: writer EPIPE after reader exit OK"
    );
    assert_eq!(epipe_exit_report(Ok(1)), "TEST4: FAIL wrote 1 bytes after reader exit");
    assert_eq!(
        epipe_exit_report(Err(Errno::EBADF)),
        "TEST4: FAIL unexpected error after reader exit: EBADF"
    );
    assert_eq!(epipe_report(Err(Errno::EPIPE)), "TEST3: writer got EPIPE as expected");
    assert_eq!(epipe_report(Ok(1)), "TEST3: writer unexpectedly wrote 1 bytes");
    assert_eq!(epipe_report(Err(Errno::EBADF)), "TEST3: writer got unexpected error: EBADF");
}

#[test]
fn received_data_is_put_together() {
    let mut data = Received::new();
    assert_eq!(data.take(b"alphaXX", Ok(5)), ReadStep::ReadOn);
    assert_eq!(data.take(b"bravo", Ok(5)), ReadStep::ReadOn);
    assert_eq!(data.take(b"bravo", Err(Errno::EBADF)), ReadStep::Failed(Errno::EBADF));
    assert_eq!(data.take(b"bravo", Ok(0)), ReadStep::End);
    assert_eq!(
        data.report("reader-a"),
        Some("TEST3: reader-a received \"alphabravo\"".to_owned())
    );
    data.take(b"\xff", Ok(1));
    assert_eq!(data.report("reader-a"), None);
}

#[test]
fn data_is_written_in_parts() {
    let mut written = Written::new(5);
    assert_eq!(written.next(), Some(0));
    written.take(Ok(3));
    assert_eq!(written.next(), Some(3));
    written.take(Ok(2));
    assert_eq!(written.next(), None);
    assert_eq!(written.report("writer-a"), "TEST3: writer-a wrote 5 bytes");
    let mut failed = Written::new(5);
    failed.take(Err(Errno::EPIPE));
    assert_eq!((failed.next(), failed.failed), (None, Some(Errno::EPIPE)));
}

#[test]
fn functions_wait_for_their_threads() {
    let mut functions = Functions::new();
    assert_eq!(functions.keep("a"), 0);
    assert_eq!(functions.keep("b"), 1);
    assert_eq!(functions.take(1), Some("b"));
    assert_eq!(functions.take(1), None);
    assert_eq!(functions.take(0), Some("a"));
    assert_eq!(functions.keep("c"), 2);
    assert_eq!(Thread::from_call(Ok::<usize, Errno>(9)).map(|t| t.id()), Some(9));
    assert!(Thread::from_call(Err(Errno::EBADF)).is_none());
    assert_eq!((count(Ok::<usize, Errno>(3)), count(Err(Errno::EBADF))), (3, 0));
    assert_eq!(Thread::new(4).id(), 4);
}

#[test]
fn sessions_are_drawn_from_their_output() {
    let mut sessions = ReplaySessions::new();
    assert_eq!(sessions.active, NO_ACTIVE);
    assert!(!sessions.add_session(1, Some(10), Some(11), b"hi "));
    assert!(!sessions.add_session(1, None, None, b""));
    sessions.add_session(2, None, Some(21), b"");
    assert_eq!(sessions.render_active(), Vec::<u8>::new());
    let record = |active: u8| ManagerCtl::new(active, 2, 1, live_mask_from_ids(&vec![1, 2]));
    assert!(sessions.poll_active(&record(1)));
    assert!(!sessions.poll_active(&record(1)));
    assert!(!sessions.poll_active(&record(9)));
    assert!(!sessions.poll_active(&ManagerCtl::empty()));
    assert!(sessions.take_output(1, b"you"));
    assert!(!sessions.take_output(2, b"there"));
    assert!(!sessions.take_output(1, b""));
    assert!(!sessions.take_output(7, b"x"));
    assert_eq!(sessions.render_active(), b"hi you".to_vec());
    sessions.poll_active(&record(2));
    assert_eq!(sessions.render_active(), b"there".to_vec());
    assert_eq!(sessions.remove_session(1), vec![10, 11]);
    assert_eq!(sessions.remove_session(1), Vec::<usize>::new());
    let codes = EventCodes { created: 1, destroyed: 2 };
    assert_eq!(codes.kind(1), EventKind::Created);
    assert_eq!(codes.kind(2), EventKind::Destroyed);
    assert_eq!(codes.kind(3), EventKind::Unknown);
}

#[test]
fn replayed_sessions_take_input_once_they_wait() {
    let mut sessions = ReplaySessions::new();
    sessions.add_session(1, Some(10), Some(11), b"hi");
    let waiting = Some(CtlRecord::new(TerminalMode::Canonical, WaitState::Waiting));
    let idle = Some(CtlRecord::new(TerminalMode::Canonical, WaitState::Idle));
    assert!(!sessions.ensure_active_in_writer(waiting));
    assert_eq!((sessions.active_ctl(), sessions.deliver()), (None, None));
    sessions.set_in_writer(Some(3));
    sessions.poll_active(&ManagerCtl::new(1, 1, 1, live_mask_from_ids(&vec![1])));
    assert_eq!((sessions.active_ctl(), sessions.deliver()), (Some(11), None));
    assert!(!sessions.ensure_active_in_writer(None));
    assert!(!sessions.ensure_active_in_writer(idle));
    assert!(sessions.ensure_active_in_writer(waiting));
    sessions.set_in_writer(Some(12));
    assert!(!sessions.ensure_active_in_writer(waiting));
    assert_eq!(sessions.deliver(), Some(12));
    assert_eq!(sessions.render_active(), b"hi".to_vec());
    assert_eq!(sessions.remove_session(1), vec![10, 11, 12]);
}

#[test]
fn texts_are_measured() {
    assert_eq!((char_width('a'), char_width('\u{e4}')), (1, 2));
    assert_eq!((char_width('\u{4e2d}'), char_width('\u{1f600}')), (3, 4));
    assert_eq!(string_bytes(&"a\u{4e2d}".to_owned()), 4);
    assert_eq!(byte_offset("a\u{4e2d}b", 2), 4);
    assert_eq!(char_index("a\u{4e2d}b", 4), 2);
    assert_eq!(to_decimal(u64::MAX), "18446744073709551615");
    assert_eq!(to_decimal(0), "0");
    assert_eq!(trim(" \t\u{3000}a b\n"), "a b");
    assert_eq!(to_number("12"), Some(12));
    assert_eq!(to_number("1a"), None);
}
