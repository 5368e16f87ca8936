use std::sync::Arc;

use d3os::kernel::open_objects::{
    after_allocate, check_open, current_owner, Errno, IoTarget, ObjectKind, OpenObjectTable, OpenOptions, OpenStep,
    OpenedObject, SeekOrigin, MAX_OPEN_OBJECTS,
};
use d3os::kernel::process_manager::{
    kernel_areas, DumpStep, FrameRange, Process, ProcessManager, VmaType,
};

const READ: OpenOptions = OpenOptions {
    read_only: true,
    write_only: false,
    read_write: false,
    directory: false,
    nonblock: false,
};

fn object(name: &'static str, kind: ObjectKind, owner: u128) -> OpenedObject<&'static str> {
    OpenedObject::new(name, kind, 0, READ, owner)
}

fn file(owner: u128) -> OpenedObject<&'static str> {
    object("file", ObjectKind::File, owner)
}

#[test]
fn objects_are_opened_as_what_they_are() {
    let write = OpenOptions { write_only: true, read_only: false, ..READ };
    let both = OpenOptions { read_write: true, read_only: false, ..READ };
    let directory = OpenOptions { directory: true, ..READ };
    assert_eq!(check_open(None, READ), Err(Errno::ENOENT));
    assert_eq!(check_open(Some(ObjectKind::File), directory), Err(Errno::ENOTDIR));
    assert_eq!(check_open(Some(ObjectKind::Pipe), directory), Err(Errno::ENOTDIR));
    assert_eq!(check_open(Some(ObjectKind::Directory), write), Err(Errno::EISDIR));
    assert_eq!(check_open(Some(ObjectKind::Directory), both), Err(Errno::EISDIR));
    assert_eq!(check_open(Some(ObjectKind::Directory), directory), Ok(OpenStep::Allocate));
    assert_eq!(check_open(Some(ObjectKind::Directory), READ), Ok(OpenStep::Allocate));
    assert_eq!(check_open(Some(ObjectKind::Pipe), write), Ok(OpenStep::OpenPipe));
    assert_eq!(check_open(Some(ObjectKind::File), both), Ok(OpenStep::Allocate));
    assert_eq!(check_open(Some(ObjectKind::Other), READ), Ok(OpenStep::Allocate));
}

#[test]
fn opening_gives_a_handle_at_the_start() {
    let mut table = OpenObjectTable::new();
    let directory = OpenOptions { directory: true, ..READ };
    let outcome = table.open(Some(("file", ObjectKind::File)), READ, 7, Err(Errno::EPIPE));
    assert_eq!(outcome.result, Ok(0));
    assert_eq!(outcome.close_pipe, None);
    let opened = table.lookup_owned(0, 7).unwrap();
    assert_eq!((opened.named_object, opened.kind, opened.pos), ("file", ObjectKind::File, 0));
    assert_eq!(opened.options, READ);
    assert_eq!(opened.pipe_to_close(), None);
    assert_eq!(table.open(None, READ, 7, Ok(0)).result, Err(Errno::ENOENT));
    let file = Some(("file", ObjectKind::File));
    assert_eq!(table.open(file, directory, 7, Ok(0)).result, Err(Errno::ENOTDIR));
    let pipe = Some(("pipe", ObjectKind::Pipe));
    let refused = table.open(pipe, READ, 7, Err(Errno::EPIPE));
    assert_eq!(refused.result, Err(Errno::EPIPE));
    assert_eq!(refused.close_pipe, None);
    assert_eq!(table.open(pipe, READ, 7, Ok(3)).result, Ok(1));
    assert_eq!(table.close(1, 7).map(|opened| opened.pipe_to_close()), Ok(Some(READ)));
}

#[test]
fn without_a_handle_the_pipe_is_closed_again() {
    let mut table = OpenObjectTable::new();
    for _ in 0..MAX_OPEN_OBJECTS {
        table.allocate_handle(file(1)).unwrap();
    }
    let write = OpenOptions { write_only: true, read_only: false, ..READ };
    let outcome = table.open(Some(("pipe", ObjectKind::Pipe)), write, 1, Ok(0));
    assert_eq!(outcome.result, Err(Errno::ENOHANDLES));
    assert_eq!(outcome.close_pipe, Some(write));
    let outcome = table.open(Some(("file", ObjectKind::File)), write, 1, Ok(0));
    assert_eq!(outcome.result, Err(Errno::ENOHANDLES));
    assert_eq!(outcome.close_pipe, None);
    assert!(after_allocate(OpenStep::OpenPipe, Err(Errno::ENOHANDLES)));
    assert!(!after_allocate(OpenStep::OpenPipe, Ok(1)));
    assert!(!after_allocate(OpenStep::Allocate, Err(Errno::ENOHANDLES)));
}

#[test]
fn the_lowest_handle_is_given_out() {
    let mut table = OpenObjectTable::new();
    for handle in 0..5 {
        assert_eq!(table.allocate_handle(file(1)), Ok(handle));
    }
    assert!(table.close(1, 1).is_ok());
    assert!(table.close(3, 1).is_ok());
    assert_eq!(table.allocate_handle(file(1)), Ok(1));
    assert_eq!(table.allocate_handle(file(1)), Ok(3));
    assert_eq!(table.allocate_handle(file(1)), Ok(5));
}

#[test]
fn handles_run_out() {
    let mut table = OpenObjectTable::new();
    for handle in 0..MAX_OPEN_OBJECTS {
        assert_eq!(table.allocate_handle(file(1)), Ok(handle));
    }
    assert_eq!(table.allocate_handle(file(1)), Err(Errno::ENOHANDLES));
    assert_eq!(table.drain_owned(1).len(), MAX_OPEN_OBJECTS);
    assert_eq!(table.allocate_handle(file(1)), Ok(0));
}

#[test]
fn a_foreign_handle_is_rejected_and_undisturbed() {
    let mut table = OpenObjectTable::new();
    let handle = table.allocate_handle(file(1)).unwrap();
    assert_eq!(table.advance(handle, 1, 10), Ok(10));
    assert_eq!(table.read_target(handle, 2), Err(Errno::EINVALH));
    assert_eq!(table.write_target(handle, 2), Err(Errno::EINVALH));
    assert_eq!(table.seek(handle, 2, 0, SeekOrigin::Start, Ok(0)), Err(Errno::EINVALH));
    assert_eq!(table.advance(handle, 2, 3), Err(Errno::EINVALH));
    assert_eq!(table.readdir_position(handle, 2), Err(Errno::EINVALH));
    assert!(matches!(table.close(handle, 2), Err(Errno::EINVALH)));
    assert!(matches!(table.lookup_owned(handle, 2), Err(Errno::EINVALH)));
    assert!(matches!(table.lookup_owned(77, 2), Err(Errno::EINVALH)));
    assert_eq!(table.read_target(handle, 1), Ok(IoTarget::File(10)));
    assert!(table.close(handle, 1).is_ok());
    assert!(matches!(table.lookup_opened_object(handle), Err(Errno::EINVALH)));
}

#[test]
fn an_exit_frees_all_handles_of_the_process() {
    let mut table = OpenObjectTable::new();
    let mine = table.allocate_handle(file(1)).unwrap();
    let names = ["a", "b", "c"];
    for name in names {
        table.allocate_handle(object(name, ObjectKind::Pipe, 2)).unwrap();
    }
    let other = table.allocate_handle(file(3)).unwrap();
    let gone: Vec<&str> = table.drain_owned(2).iter().map(|o| o.named_object).collect();
    assert_eq!(gone, names);
    assert!(table.lookup_owned(mine, 1).is_ok());
    assert!(table.lookup_owned(other, 3).is_ok());
    assert_eq!(table.allocate_handle(file(1)), Ok(mine + 1));
    assert!(table.drain_owned(2).is_empty());
}

#[test]
fn handles_are_reclaimed_in_the_order_of_the_table() {
    let mut table = OpenObjectTable::new();
    for name in ["a", "b", "c", "d", "e"] {
        table.allocate_handle(object(name, ObjectKind::File, 1)).unwrap();
    }
    // The last entry takes the place of the one that is closed.
    assert!(table.close(1, 1).is_ok());
    assert_eq!(table.allocate_handle(object("f", ObjectKind::File, 2)), Ok(1));
    assert_eq!(table.allocate_handle(object("g", ObjectKind::File, 1)), Ok(5));
    assert_eq!(table.seek(2, 1, 4, SeekOrigin::Start, Ok(0)), Ok(4));
    let gone: Vec<&str> = table.drain_owned(1).iter().map(|o| o.named_object).collect();
    assert_eq!(gone, ["a", "e", "c", "d", "g"]);
    assert_eq!(table.drain_owned(2).len(), 1);
}

#[test]
fn reads_and_writes_go_by_the_kind() {
    let mut table = OpenObjectTable::new();
    let f = table.allocate_handle(file(1)).unwrap();
    let p = table.allocate_handle(object("pipe", ObjectKind::Pipe, 1)).unwrap();
    let d = table.allocate_handle(object("dir", ObjectKind::Directory, 1)).unwrap();
    let o = table.allocate_handle(object("other", ObjectKind::Other, 1)).unwrap();
    assert_eq!(table.read_target(f, 1), Ok(IoTarget::File(0)));
    assert_eq!(table.read_target(p, 1), Ok(IoTarget::Pipe));
    assert_eq!(table.read_target(d, 1), Err(Errno::EISDIR));
    assert_eq!(table.read_target(o, 1), Err(Errno::ENOTSUP));
    assert_eq!(table.write_target(f, 1), Ok(IoTarget::File(0)));
    assert_eq!(table.write_target(p, 1), Ok(IoTarget::Pipe));
    assert_eq!(table.write_target(d, 1), Err(Errno::EBADF));
    assert_eq!(table.write_target(o, 1), Err(Errno::ENOTSUP));
    assert_eq!(table.advance(f, 1, 7), Ok(7));
    assert_eq!(table.advance(p, 1, 7), Ok(7));
    assert_eq!(table.read_target(f, 1), Ok(IoTarget::File(7)));
    assert_eq!(table.lookup_owned(p, 1).map(|o| o.pos), Ok(0));
}

#[test]
fn positions_are_sought() {
    let mut table = OpenObjectTable::new();
    let f = table.allocate_handle(file(1)).unwrap();
    let p = table.allocate_handle(object("pipe", ObjectKind::Pipe, 1)).unwrap();
    let unknown = Err(Errno::ENOTSUP);
    assert_eq!(table.seek(f, 1, 20, SeekOrigin::Start, unknown), Ok(20));
    assert_eq!(table.seek(f, 1, -5, SeekOrigin::Current, unknown), Ok(15));
    assert_eq!(table.seek(f, 1, -1, SeekOrigin::End, Ok(100)), Ok(99));
    assert_eq!(table.seek(f, 1, 0, SeekOrigin::End, Err(Errno::EBADF)), Err(Errno::EBADF));
    assert_eq!(table.read_target(f, 1), Ok(IoTarget::File(99)));
    assert_eq!(table.seek(f, 1, -1, SeekOrigin::Start, unknown), Ok(usize::MAX));
    assert_eq!(table.seek(f, 1, -4, SeekOrigin::Current, unknown), Ok(usize::MAX - 4));
    assert_eq!(table.seek(f, 1, 7, SeekOrigin::Current, unknown), Ok(2));
    assert_eq!(table.seek(f, 1, 5, SeekOrigin::End, Ok(usize::MAX)), Ok(4));
    assert_eq!(table.seek(f, 1, isize::MIN, SeekOrigin::Start, unknown), Ok(1 << 63));
    assert_eq!(table.seek(p, 1, 0, SeekOrigin::Start, Ok(0)), Err(Errno::ENOTSUP));
}

#[test]
fn directories_are_read_entry_by_entry() {
    let mut table = OpenObjectTable::new();
    let d = table.allocate_handle(object("dir", ObjectKind::Directory, 1)).unwrap();
    let f = table.allocate_handle(file(1)).unwrap();
    assert_eq!(table.readdir_position(d, 1), Ok(0));
    assert_eq!(table.readdir(d, 1, Ok(Some("x"))), Ok(Some("x")));
    assert_eq!(table.readdir_position(d, 1), Ok(1));
    assert_eq!(table.readdir(d, 1, Err::<Option<u8>, Errno>(Errno::EBADF)), Err(Errno::EBADF));
    assert_eq!(table.readdir_position(d, 1), Ok(1));
    assert_eq!(table.readdir(d, 1, Ok(None::<u8>)), Ok(None));
    assert_eq!(table.readdir_position(d, 1), Ok(2));
    assert_eq!(table.readdir_position(f, 1), Err(Errno::ENOTSUP));
    assert_eq!(table.readdir(f, 1, Ok(Some(1))), Err(Errno::ENOTSUP));
    assert_eq!(table.readdir(9, 1, Ok(Some(1))), Err(Errno::EINVALH));
}

#[test]
fn before_there_is_a_thread_the_kernel_owns_what_is_opened() {
    assert_eq!(current_owner(None), 0);
    assert_eq!(current_owner(Some(5)), 5);
    assert_eq!(Errno::EINVALH.name(), "EINVALH");
    assert_eq!(Errno::EEXIST.name(), "EEXIST");
}

fn manager() -> ProcessManager<u32> {
    let mut manager = ProcessManager::new();
    manager.create_kernel_process(7, "kernel".to_owned());
    manager
}

fn ids(processes: &[Arc<Process<u32>>]) -> Vec<u128> {
    processes.iter().map(|process| process.id).collect()
}

#[test]
fn the_kernel_process_comes_first() {
    let mut manager = ProcessManager::new();
    assert!(manager.kernel_process().is_none());
    let kernel = manager.create_kernel_process(7u32, "kernel".to_owned());
    assert_eq!((kernel.id, kernel.virtual_address_space), (0, 7));
    let shell = manager.create_process(5, 8, "shell".to_owned());
    assert_eq!((shell.id, shell.name.as_str()), (5, "shell"));
    assert_eq!(manager.active_process_ids(), vec![0, 5]);
    assert_eq!(manager.kernel_process().map(|process| process.id), Some(0));
}

#[test]
fn alone_the_kernel_process_is_the_current_one() {
    let mut manager = manager();
    assert_eq!(manager.current_process(None).id, 0);
    let shell = manager.create_process(5, 8, "shell".to_owned());
    assert_eq!(manager.current_process(Some(shell)).id, 5);
}

#[test]
fn processes_are_found_by_their_id() {
    let mut manager = manager();
    manager.create_process(5, 8, "shell".to_owned());
    assert!(manager.is_active_process(5) && !manager.is_active_process(6));
    assert_eq!(manager.get_stats(5).map(|process| process.virtual_address_space), Some(8));
    assert!(manager.get_stats(6).is_none());
    assert_eq!(ids(&manager.get_all_stats()), vec![0, 5]);
}

#[test]
fn an_exited_process_outlives_one_clean_up() {
    let mut manager = manager();
    let shell = manager.create_process(5, 8, "shell".to_owned());
    manager.create_process(6, 9, "other".to_owned());
    manager.exit(5);
    assert_eq!(manager.active_process_ids(), vec![0, 6]);
    assert_eq!(Arc::strong_count(&shell), 2);
    manager.drop_exited_process();
    assert_eq!(Arc::strong_count(&shell), 2);
    manager.drop_exited_process();
    assert_eq!(Arc::strong_count(&shell), 1);
    manager.kill(6);
    assert_eq!(manager.active_process_ids(), vec![0]);
}

#[test]
fn the_last_process_takes_the_free_place() {
    let mut manager = manager();
    for id in 1..4 {
        manager.create_process(id, 0, "p".to_owned());
    }
    manager.exit(1);
    assert_eq!(manager.active_process_ids(), vec![0, 3, 2]);
    manager.exit(2);
    assert_eq!(manager.active_process_ids(), vec![0, 3]);
}

fn lines(manager: &ProcessManager<u32>) -> Vec<String> {
    manager
        .dump()
        .iter()
        .map(|step| match step {
            DumpStep::Line(line) => line.clone(),
            DumpStep::Space(process) => format!("space {}", process.virtual_address_space),
        })
        .collect()
}

#[test]
fn processes_are_listed() {
    let empty = ProcessManager::<u32>::new();
    assert_eq!(lines(&empty), vec!["=== Active Processes Dump ===", "   No active processes."]);
    let mut manager = manager();
    manager.create_process(0x0123456789abcdef_fedcba9876543210, 8, "shell".to_owned());
    assert_eq!(
        lines(&manager),
        vec![
            "=== Active Processes Dump ===",
            "Process #0: PID=00000000-0000-0000-0000-000000000000, name=kernel",
            "space 7",
            "Process #1: PID=01234567-89ab-cdef-fedc-ba9876543210, name=shell",
            "space 8",
            "=============================",
        ]
    );
}

#[test]
fn the_kernel_has_a_heap_and_code() {
    let image = FrameRange { start: 0x100000, end: 0x103000 };
    let heap = FrameRange { start: 0x200000, end: 0x200000 };
    let (first, second) = kernel_areas(image, heap);
    assert_eq!((first.start, first.pages, first.kind, first.name), (0x200000, 0, VmaType::Heap, "heap"));
    assert_eq!((second.start, second.pages, second.kind, second.name), (0x100000, 3, VmaType::Code, "code"));
    assert_eq!(FrameRange { start: 0x2000, end: 0x1000 }.len(), 0);
}
