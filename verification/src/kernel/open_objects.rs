//! The table of open objects.
//!
//! Every open object belongs to the process that opened it. To any other process
//! its handle looks like one that does not exist, and when the process exits its
//! handles are taken back.

use vstd::prelude::*;

use uuid::Uuid;

verus! {

/// Number of handles.
pub const MAX_OPEN_OBJECTS: usize = 4096;

/// Why an operation on a handle failed.
#[derive(Copy, Clone, Debug, PartialEq, Eq, Structural)]
pub enum Errno {
    /// No such object.
    ENOENT,
    /// Not a directory.
    ENOTDIR,
    /// A directory.
    EISDIR,
    /// Not open for this.
    EBADF,
    /// Not supported.
    ENOTSUP,
    /// No such handle, or not one of the caller's.
    EINVALH,
    /// No handle is free.
    ENOHANDLES,
    /// Nobody reads from the pipe.
    EPIPE,
    /// The object is already there.
    EEXIST,
}

/// The name of an error.
pub open spec fn errno_text(e: Errno) -> Seq<char> {
    match e {
        Errno::ENOENT => "ENOENT"@,
        Errno::ENOTDIR => "ENOTDIR"@,
        Errno::EISDIR => "EISDIR"@,
        Errno::EBADF => "EBADF"@,
        Errno::ENOTSUP => "ENOTSUP"@,
        Errno::EINVALH => "EINVALH"@,
        Errno::ENOHANDLES => "ENOHANDLES"@,
        Errno::EPIPE => "EPIPE"@,
        Errno::EEXIST => "EEXIST"@,
    }
}

impl Errno {
    /// The name of the error.
    pub fn name(self) -> (r: &'static str)
        ensures
            r@ == errno_text(self),
    {
        match self {
            Errno::ENOENT => "ENOENT",
            Errno::ENOTDIR => "ENOTDIR",
            Errno::EISDIR => "EISDIR",
            Errno::EBADF => "EBADF",
            Errno::ENOTSUP => "ENOTSUP",
            Errno::EINVALH => "EINVALH",
            Errno::ENOHANDLES => "ENOHANDLES",
            Errno::EPIPE => "EPIPE",
            Errno::EEXIST => "EEXIST",
        }
    }
}

/// What a named object is.
#[derive(Copy, Clone, Debug, PartialEq, Eq, Structural)]
pub enum ObjectKind {
    File,
    Directory,
    Pipe,
    Other,
}

/// How an object is opened.
#[derive(Copy, Clone, Debug, PartialEq, Eq, Structural)]
pub struct OpenOptions {
    pub read_only: bool,
    pub write_only: bool,
    pub read_write: bool,
    pub directory: bool,
    pub nonblock: bool,
}

/// From where a new position is counted.
#[derive(Copy, Clone, Debug, PartialEq, Eq, Structural)]
pub enum SeekOrigin {
    Start,
    End,
    Current,
}

/// An open object: what was opened, the position in it, how and by which process
/// it was opened.
pub struct OpenedObject<T> {
    pub named_object: T,
    pub kind: ObjectKind,
    pub pos: usize,
    pub options: OpenOptions,
    pub owner: u128,
}

impl<T> OpenedObject<T> {
    /// An open object.
    pub fn new(
        named_object: T,
        kind: ObjectKind,
        pos: usize,
        options: OpenOptions,
        owner: u128,
    ) -> (r: OpenedObject<T>)
        ensures
            r == (OpenedObject { named_object, kind, pos, options, owner }),
    {
        OpenedObject { named_object, kind, pos, options, owner }
    }

    /// The options with which a pipe endpoint is to be closed once its handle is
    /// taken back. Other objects need no closing.
    pub fn pipe_to_close(&self) -> (r: Option<OpenOptions>)
        ensures
            r == if self.kind == ObjectKind::Pipe {
                Some(self.options)
            } else {
                None
            },
    {
        if self.kind == ObjectKind::Pipe {
            Some(self.options)
        } else {
            None
        }
    }
}

/// What opening an object takes besides a handle.
#[derive(Copy, Clone, Debug, PartialEq, Eq, Structural)]
pub enum OpenStep {
    /// The pipe has to be opened first.
    OpenPipe,
    /// Nothing.
    Allocate,
}

/// Whether an object may be opened in this way. Only a directory can be opened as
/// one, and a directory is not opened for writing.
pub open spec fn open_allowed(found: Option<ObjectKind>, flags: OpenOptions) -> Result<
    OpenStep,
    Errno,
> {
    match found {
        None => Err(Errno::ENOENT),
        Some(kind) => if flags.directory && kind != ObjectKind::Directory {
            Err(Errno::ENOTDIR)
        } else if kind == ObjectKind::Directory && (flags.write_only || flags.read_write) {
            Err(Errno::EISDIR)
        } else if kind == ObjectKind::Pipe {
            Ok(OpenStep::OpenPipe)
        } else {
            Ok(OpenStep::Allocate)
        },
    }
}

/// Whether an object may be opened in this way.
pub fn check_open(found: Option<ObjectKind>, flags: OpenOptions) -> (r: Result<OpenStep, Errno>)
    ensures
        r == open_allowed(found, flags),
{
    let kind = match found {
        Some(kind) => kind,
        None => {
            return Err(Errno::ENOENT);
        },
    };
    if flags.directory && kind != ObjectKind::Directory {
        return Err(Errno::ENOTDIR);
    }
    if kind == ObjectKind::Directory && (flags.write_only || flags.read_write) {
        return Err(Errno::EISDIR);
    }
    if kind == ObjectKind::Pipe {
        Ok(OpenStep::OpenPipe)
    } else {
        Ok(OpenStep::Allocate)
    }
}

/// Whether a pipe endpoint that was opened has to be closed again, with the options
/// that it was opened with: it was opened, and no handle could be had for it.
pub fn after_allocate(step: OpenStep, result: Result<usize, Errno>) -> (r: bool)
    ensures
        r == (step == OpenStep::OpenPipe && result is Err),
{
    step == OpenStep::OpenPipe && result.is_err()
}

/// What came of opening an object.
pub struct OpenOutcome {
    /// The handle, or why there is none.
    pub result: Result<usize, Errno>,
    /// The options with which the pipe endpoint just opened is to be closed again.
    pub close_pipe: Option<OpenOptions>,
}

/// Why an object is not opened, before a handle is looked for: it may not be opened
/// in this way, or it is a pipe that could not be opened.
pub open spec fn open_refused(
    found: Option<ObjectKind>,
    flags: OpenOptions,
    pipe: Result<usize, Errno>,
) -> Option<Errno> {
    match open_allowed(found, flags) {
        Err(e) => Some(e),
        Ok(OpenStep::OpenPipe) => match pipe {
            Err(e) => Some(e),
            Ok(_) => None,
        },
        Ok(OpenStep::Allocate) => None,
    }
}

/// Where data goes to or comes from.
#[derive(Copy, Clone, Debug, PartialEq, Eq, Structural)]
pub enum IoTarget {
    /// A file, at this position.
    File(usize),
    /// A pipe.
    Pipe,
}

/// The target of reading, or why there is none.
pub open spec fn read_target_of(kind: ObjectKind, pos: usize) -> Result<IoTarget, Errno> {
    match kind {
        ObjectKind::File => Ok(IoTarget::File(pos)),
        ObjectKind::Pipe => Ok(IoTarget::Pipe),
        ObjectKind::Directory => Err(Errno::EISDIR),
        ObjectKind::Other => Err(Errno::ENOTSUP),
    }
}

/// The target of writing, or why there is none.
pub open spec fn write_target_of(kind: ObjectKind, pos: usize) -> Result<IoTarget, Errno> {
    match kind {
        ObjectKind::File => Ok(IoTarget::File(pos)),
        ObjectKind::Pipe => Ok(IoTarget::Pipe),
        ObjectKind::Directory => Err(Errno::EBADF),
        ObjectKind::Other => Err(Errno::ENOTSUP),
    }
}

/// A position before the start wraps around.
pub open spec fn wrapped_position(value: int) -> int {
    if value >= 0 {
        value
    } else {
        usize::MAX + 1 + value
    }
}

/// The handle is in the entries.
pub open spec fn has_handle<T>(entries: Seq<(usize, OpenedObject<T>)>, handle: usize) -> bool {
    exists|i: int| 0 <= i < entries.len() && (#[trigger] entries[i]).0 == handle
}

/// The index of the entry of a handle.
pub open spec fn index_of<T>(entries: Seq<(usize, OpenedObject<T>)>, handle: usize) -> int {
    choose|i: int| 0 <= i < entries.len() && (#[trigger] entries[i]).0 == handle
}

/// No handle is in the entries twice.
pub open spec fn distinct<T>(entries: Seq<(usize, OpenedObject<T>)>) -> bool {
    forall|i: int, j: int|
        0 <= i < entries.len() && 0 <= j < entries.len() && (#[trigger] entries[i]).0 == (
        #[trigger] entries[j]).0 ==> i == j
}

/// The open objects by their handles.
pub open spec fn objects<T>(entries: Seq<(usize, OpenedObject<T>)>) -> Map<usize, OpenedObject<T>> {
    Map::new(|h: usize| has_handle(entries, h), |h: usize| entries[index_of(entries, h)].1)
}

/// `handle` is the lowest one that is free.
pub open spec fn is_lowest_free(used: Set<usize>, handle: usize) -> bool {
    &&& handle < MAX_OPEN_OBJECTS
    &&& !used.contains(handle)
    &&& forall|h: usize| h < handle ==> #[trigger] used.contains(h)
}

/// Every handle is in use.
pub open spec fn all_used(used: Set<usize>) -> bool {
    forall|h: usize| h < MAX_OPEN_OBJECTS ==> #[trigger] used.contains(h)
}

/// The process owns the handle.
pub open spec fn owns<T>(map: Map<usize, OpenedObject<T>>, handle: usize, owner: u128) -> bool {
    map.contains_key(handle) && map[handle].owner == owner
}

/// The open objects without those of a process.
pub open spec fn without_owner<T>(map: Map<usize, OpenedObject<T>>, owner: u128) -> Map<
    usize,
    OpenedObject<T>,
> {
    Map::new(|h: usize| map.contains_key(h) && map[h].owner != owner, |h: usize| map[h])
}

/// `handles` are exactly those of a process, each one once.
pub open spec fn lists_owned<T>(
    handles: Seq<usize>,
    map: Map<usize, OpenedObject<T>>,
    owner: u128,
) -> bool {
    &&& handles.no_duplicates()
    &&& forall|i: int| 0 <= i < handles.len() ==> owns(map, #[trigger] handles[i], owner)
    &&& forall|h: usize| owns(map, h, owner) ==> #[trigger] handles.contains(h)
}

/// Handles in the order in which the table holds them.
pub open spec fn handle_order<T>(entries: Seq<(usize, OpenedObject<T>)>) -> Seq<usize> {
    Seq::new(entries.len(), |i: int| entries[i].0)
}

/// The handles of a process, in their order.
pub open spec fn handles_of<T>(
    order: Seq<usize>,
    map: Map<usize, OpenedObject<T>>,
    owner: u128,
) -> Seq<usize> {
    order.filter(|h: usize| owns(map, h, owner))
}

/// The handles that are not those of a process, in their order.
pub open spec fn handles_left<T>(
    order: Seq<usize>,
    map: Map<usize, OpenedObject<T>>,
    owner: u128,
) -> Seq<usize> {
    order.filter(|h: usize| !owns(map, h, owner))
}

/// The order after a handle is taken out: the last one takes its place.
pub open spec fn handle_dropped(order: Seq<usize>, handle: usize) -> Seq<usize> {
    order.update(order.index_of(handle), order.last()).drop_last()
}

/// One more handle goes to those of a process or to the others.
proof fn lemma_handles_push<T>(
    order: Seq<usize>,
    handle: usize,
    map: Map<usize, OpenedObject<T>>,
    owner: u128,
)
    ensures
        handles_of(order.push(handle), map, owner) == if owns(map, handle, owner) {
            handles_of(order, map, owner).push(handle)
        } else {
            handles_of(order, map, owner)
        },
        handles_left(order.push(handle), map, owner) == if owns(map, handle, owner) {
            handles_left(order, map, owner)
        } else {
            handles_left(order, map, owner).push(handle)
        },
{
    order.lemma_filter_push(handle, |h: usize| owns(map, h, owner));
    order.lemma_filter_push(handle, |h: usize| !owns(map, h, owner));
}

/// The open objects with a handle at another position.
pub open spec fn at_position<T>(
    map: Map<usize, OpenedObject<T>>,
    handle: usize,
    pos: usize,
) -> Map<usize, OpenedObject<T>> {
    map.insert(handle, OpenedObject { pos, ..map[handle] })
}

/// A position or a size as a signed number: one beyond the range of `isize` stands
/// for a place before the start.
pub open spec fn signed_position(value: usize) -> int {
    if value <= isize::MAX {
        value as int
    } else {
        value - usize::MAX - 1
    }
}

/// A position or a size as a signed number.
fn to_signed(value: usize) -> (r: isize)
    ensures
        r == signed_position(value),
{
    if value <= isize::MAX as usize {
        value as isize
    } else {
        let below: usize = usize::MAX - value;
        -1 - below as isize
    }
}

/// The sum that a seek takes stays within the range of `isize`.
pub open spec fn seek_fits(
    origin: SeekOrigin,
    offset: isize,
    pos: usize,
    size: Result<usize, Errno>,
) -> bool {
    match origin {
        SeekOrigin::Start => true,
        SeekOrigin::End => size matches Ok(size) ==> isize::MIN <= signed_position(size) + offset
            <= isize::MAX,
        SeekOrigin::Current => isize::MIN <= signed_position(pos) + offset <= isize::MAX,
    }
}

/// The position after a seek.
pub open spec fn seek_position(
    origin: SeekOrigin,
    offset: isize,
    pos: usize,
    size: Result<usize, Errno>,
) -> usize {
    wrapped_position(
        match origin {
            SeekOrigin::Start => offset as int,
            SeekOrigin::End => signed_position(size->Ok_0) + offset,
            SeekOrigin::Current => signed_position(pos) + offset,
        },
    ) as usize
}

proof fn lemma_objects_at<T>(entries: Seq<(usize, OpenedObject<T>)>, i: int)
    requires
        distinct(entries),
        0 <= i < entries.len(),
    ensures
        objects(entries).contains_key(entries[i].0),
        objects(entries)[entries[i].0] == entries[i].1,
{
    let h = entries[i].0;
    assert(has_handle(entries, h));
    let j = index_of(entries, h);
    assert(entries[j].0 == h);
}

/// The table.
pub struct OpenObjectTable<T> {
    open_handles: Vec<(usize, OpenedObject<T>)>,
    free_handles: Vec<usize>,
}

impl<T> View for OpenObjectTable<T> {
    type V = Map<usize, OpenedObject<T>>;

    closed spec fn view(&self) -> Map<usize, OpenedObject<T>> {
        objects(self.open_handles@)
    }
}

impl<T> OpenObjectTable<T> {
    /// No handle is in use twice, and the marks of used handles are right.
    pub closed spec fn wf(&self) -> bool {
        &&& distinct(self.open_handles@)
        &&& self.free_handles@.len() == MAX_OPEN_OBJECTS
        &&& forall|i: int|
            0 <= i < self.open_handles@.len() ==> (#[trigger] self.open_handles@[i]).0
                < MAX_OPEN_OBJECTS
        &&& forall|h: usize|
            h < MAX_OPEN_OBJECTS ==> ((#[trigger] self.free_handles@[h as int]) != 0 <==> has_handle(
                self.open_handles@,
                h,
            ))
    }

    /// The handles in use, in the order in which the table holds them.
    pub closed spec fn order(&self) -> Seq<usize> {
        handle_order(self.open_handles@)
    }

    /// The order holds every handle that is in use, and each one once.
    pub proof fn law_order_lists_handles(&self)
        requires
            self.wf(),
        ensures
            self.order().no_duplicates(),
            forall|h: usize| #[trigger] self.order().contains(h) <==> self@.contains_key(h),
    {
        let entries = self.open_handles@;
        assert forall|i: int, j: int|
            0 <= i < self.order().len() && 0 <= j < self.order().len() && i != j implies self.order()[i]
            != self.order()[j] by {
            assert(entries[i].0 == self.order()[i] && entries[j].0 == self.order()[j]);
        }
        assert forall|h: usize| #[trigger] self.order().contains(h) <==> self@.contains_key(h) by {
            if self.order().contains(h) {
                let i = choose|i: int| 0 <= i < self.order().len() && self.order()[i] == h;
                assert(entries[i].0 == h);
            }
            if self@.contains_key(h) {
                let i = index_of(entries, h);
                assert(self.order()[i] == h);
            }
        }
    }

    /// Handles are below the bound.
    pub proof fn law_handles_bounded(&self, handle: usize)
        requires
            self.wf(),
            self@.contains_key(handle),
        ensures
            handle < MAX_OPEN_OBJECTS,
    {
        let i = index_of(self.open_handles@, handle);
        assert(self.open_handles@[i].0 == handle);
    }

    /// An empty table.
    pub fn new() -> (r: OpenObjectTable<T>)
        ensures
            r.wf(),
            r@ == Map::<usize, OpenedObject<T>>::empty(),
            r.order() == Seq::<usize>::empty(),
    {
        let free_handles = vec![0usize; MAX_OPEN_OBJECTS];
        let r = OpenObjectTable { open_handles: Vec::new(), free_handles };
        proof {
            assert(r@ =~= Map::<usize, OpenedObject<T>>::empty());
            assert(r.order() =~= Seq::<usize>::empty());
        }
        r
    }

    fn find(&self, handle: usize) -> (r: Option<usize>)
        requires
            self.wf(),
        ensures
            match r {
                Some(i) => i < self.open_handles@.len() && self.open_handles@[i as int].0 == handle
                    && self@.contains_key(handle) && self@[handle]
                    == self.open_handles@[i as int].1,
                None => !self@.contains_key(handle),
            },
    {
        let mut i: usize = 0;
        while i < self.open_handles.len()
            invariant
                self.wf(),
                i <= self.open_handles@.len(),
                forall|k: int| 0 <= k < i ==> (#[trigger] self.open_handles@[k]).0 != handle,
            decreases self.open_handles@.len() - i,
        {
            if self.open_handles[i].0 == handle {
                proof {
                    lemma_objects_at(self.open_handles@, i as int);
                }
                return Some(i);
            }
            i = i + 1;
        }
        None
    }

    /// The object of a handle.
    pub fn lookup_opened_object(&self, handle: usize) -> (r: Result<&OpenedObject<T>, Errno>)
        requires
            self.wf(),
        ensures
            self@.contains_key(handle) ==> (r matches Ok(o) && *o == self@[handle]),
            !self@.contains_key(handle) ==> (r matches Err(e) && e == Errno::EINVALH),
    {
        match self.find(handle) {
            Some(i) => Ok(&self.open_handles[i].1),
            None => Err(Errno::EINVALH),
        }
    }

    /// The object of a handle of this process. A handle of another process is
    /// answered like one that does not exist.
    pub fn lookup_owned(&self, handle: usize, owner: u128) -> (r: Result<&OpenedObject<T>, Errno>)
        requires
            self.wf(),
        ensures
            owns(self@, handle, owner) ==> (r matches Ok(o) && *o == self@[handle]),
            !owns(self@, handle, owner) ==> (r matches Err(e) && e == Errno::EINVALH),
    {
        match self.lookup_opened_object(handle) {
            Ok(opened) => {
                if opened.owner != owner {
                    return Err(Errno::EINVALH);
                }
                Ok(opened)
            },
            Err(e) => Err(e),
        }
    }

    /// Give an object the lowest free handle.
    pub fn allocate_handle(&mut self, opened_object: OpenedObject<T>) -> (r: Result<usize, Errno>)
        requires
            old(self).wf(),
        ensures
            final(self).wf(),
            all_used(old(self)@.dom()) ==> {
                &&& r == Err::<usize, Errno>(Errno::ENOHANDLES)
                &&& final(self)@ == old(self)@
                &&& final(self).order() == old(self).order()
            },
            !all_used(old(self)@.dom()) ==> {
                &&& r matches Ok(handle)
                &&& is_lowest_free(old(self)@.dom(), handle)
                &&& final(self)@ == old(self)@.insert(handle, opened_object)
                &&& final(self).order() == old(self).order().push(handle)
            },
    {
        let ghost before = self.open_handles@;
        let handle: usize = match self.find_free_handle() {
            Some(handle) => handle,
            None => {
                proof {
                    assert forall|h: usize| h < MAX_OPEN_OBJECTS implies #[trigger] self@.dom().contains(
                    h) by {
                        assert(self.free_handles@[h as int] != 0);
                    }
                }
                return Err(Errno::ENOHANDLES);
            },
        };
        self.free_handles[handle] = 1;
        self.open_handles.push((handle, opened_object));
        proof {
            let after = self.open_handles@;
            assert(self.order() =~= old(self).order().push(handle));
            assert(!has_handle(before, handle));
            assert(distinct(after)) by {
                assert forall|i: int, j: int|
                    0 <= i < after.len() && 0 <= j < after.len() && (#[trigger] after[i]).0 == (
                    #[trigger] after[j]).0 implies i == j by {
                    if i < before.len() && j < before.len() {
                        assert(before[i].0 == before[j].0);
                    } else if i < before.len() {
                        assert(before[i].0 == handle);
                    } else if j < before.len() {
                        assert(before[j].0 == handle);
                    }
                }
            }
            assert forall|h: usize| has_handle(after, h) <==> (has_handle(before, h) || h
                == handle) by {
                if has_handle(before, h) {
                    let i = index_of(before, h);
                    assert(after[i].0 == h);
                }
                if h == handle {
                    assert(after[before.len() as int].0 == h);
                }
                if has_handle(after, h) {
                    let i = index_of(after, h);
                    if i < before.len() {
                        assert(before[i].0 == h);
                    }
                }
            }
            assert(self@ =~= old(self)@.insert(handle, opened_object)) by {
                assert forall|h: usize| self@.contains_key(h) implies self@[h] == old(self)@.insert(
                    handle,
                    opened_object,
                )[h] by {
                    let i = index_of(after, h);
                    lemma_objects_at(after, i);
                    if i < before.len() {
                        lemma_objects_at(before, i);
                    }
                }
            }
            assert(!old(self)@.dom().contains(handle));
        }
        Ok(handle)
    }

    /// Open an object that was looked up, for a process, at its start. `pipe` is what
    /// opening the pipe gave; it matters only where `check_open` asks for that. If no
    /// handle is free, a pipe that was opened is to be closed again.
    pub fn open(
        &mut self,
        found: Option<(T, ObjectKind)>,
        flags: OpenOptions,
        owner: u128,
        pipe: Result<usize, Errno>,
    ) -> (r: OpenOutcome)
        requires
            old(self).wf(),
        ensures
            final(self).wf(),
            ({
                let kind = match found {
                    Some((_, kind)) => Some(kind),
                    None => None,
                };
                match open_refused(kind, flags, pipe) {
                    Some(e) => {
                        &&& r.result == Err::<usize, Errno>(e)
                        &&& r.close_pipe is None
                        &&& final(self)@ == old(self)@
                        &&& final(self).order() == old(self).order()
                    },
                    None => if all_used(old(self)@.dom()) {
                        &&& r.result == Err::<usize, Errno>(Errno::ENOHANDLES)
                        &&& r.close_pipe == if kind == Some(ObjectKind::Pipe) {
                            Some(flags)
                        } else {
                            None
                        }
                        &&& final(self)@ == old(self)@
                        &&& final(self).order() == old(self).order()
                    } else {
                        &&& r.result matches Ok(handle)
                        &&& found matches Some((named_object, kind))
                        &&& is_lowest_free(old(self)@.dom(), handle)
                        &&& r.close_pipe is None
                        &&& final(self)@ == old(self)@.insert(
                            handle,
                            (OpenedObject { named_object, kind, pos: 0, options: flags, owner }),
                        )
                        &&& owns(final(self)@, handle, owner)
                        &&& final(self).order() == old(self).order().push(handle)
                    },
                }
            }),
    {
        let (named_object, kind) = match found {
            Some(object) => object,
            None => {
                return OpenOutcome { result: Err(Errno::ENOENT), close_pipe: None };
            },
        };
        let step = match check_open(Some(kind), flags) {
            Ok(step) => step,
            Err(e) => {
                return OpenOutcome { result: Err(e), close_pipe: None };
            },
        };
        if step == OpenStep::OpenPipe {
            if let Err(e) = pipe {
                return OpenOutcome { result: Err(e), close_pipe: None };
            }
        }
        let result = self.allocate_handle(OpenedObject::new(named_object, kind, 0, flags, owner));
        let close_pipe = if after_allocate(step, result) { Some(flags) } else { None };
        OpenOutcome { result, close_pipe }
    }

    /// The lowest free handle.
    fn find_free_handle(&self) -> (r: Option<usize>)
        requires
            self.wf(),
        ensures
            match r {
                Some(h) => is_lowest_free(self@.dom(), h) && self.free_handles@[h as int] == 0,
                None => forall|h: usize|
                    h < MAX_OPEN_OBJECTS ==> (#[trigger] self.free_handles@[h as int]) != 0,
            },
    {
        let mut i: usize = 0;
        while i < MAX_OPEN_OBJECTS
            invariant
                self.wf(),
                self.free_handles@.len() == MAX_OPEN_OBJECTS,
                i <= MAX_OPEN_OBJECTS,
                forall|h: usize| h < i ==> (#[trigger] self.free_handles@[h as int]) != 0,
            decreases MAX_OPEN_OBJECTS - i,
        {
            if self.free_handles[i] == 0 {
                proof {
                    assert forall|h: usize| h < i implies #[trigger] self@.dom().contains(h) by {
                        assert(self.free_handles@[h as int] != 0);
                    }
                    assert(!has_handle(self.open_handles@, i));
                }
                return Some(i);
            }
            i = i + 1;
        }
        None
    }

    /// Take a handle back.
    pub fn free_handle(&mut self, handle: usize) -> (r: Result<OpenedObject<T>, Errno>)
        requires
            old(self).wf(),
        ensures
            final(self).wf(),
            old(self)@.contains_key(handle) ==> {
                &&& r matches Ok(o)
                &&& o == old(self)@[handle]
                &&& final(self)@ == old(self)@.remove(handle)
                &&& final(self).order() == handle_dropped(old(self).order(), handle)
            },
            !old(self)@.contains_key(handle) ==> (r matches Err(e) && e == Errno::EINVALH)
                && final(self)@ == old(self)@ && final(self).order() == old(self).order(),
    {
        match self.find(handle) {
            Some(i) => {
                let ghost before = self.open_handles@;
                let (_, opened) = self.open_handles.swap_remove(i);
                self.free_handles[handle] = 0;
                proof {
                    lemma_entry_removed(before, self.open_handles@, i as int);
                    let order = handle_order(before);
                    assert(order[i as int] == handle);
                    let k = order.index_of(handle);
                    assert(before[k].0 == handle && before[i as int].0 == handle);
                    assert(self.order() =~= handle_dropped(order, handle));
                }
                Ok(opened)
            },
            None => Err(Errno::EINVALH),
        }
    }

    /// Close a handle of this process and return what it stood for. A pipe has to
    /// be closed with the options that it was opened with.
    pub fn close(&mut self, handle: usize, owner: u128) -> (r: Result<OpenedObject<T>, Errno>)
        requires
            old(self).wf(),
        ensures
            final(self).wf(),
            owns(old(self)@, handle, owner) ==> {
                &&& r matches Ok(o)
                &&& o == old(self)@[handle]
                &&& final(self)@ == old(self)@.remove(handle)
                &&& final(self).order() == handle_dropped(old(self).order(), handle)
            },
            !owns(old(self)@, handle, owner) ==> (r matches Err(e) && e == Errno::EINVALH)
                && final(self)@ == old(self)@ && final(self).order() == old(self).order(),
    {
        match self.lookup_owned(handle, owner) {
            Ok(_) => {},
            Err(e) => {
                return Err(e);
            },
        }
        self.free_handle(handle)
    }

    /// Where reading from a handle takes its data from.
    pub fn read_target(&self, handle: usize, owner: u128) -> (r: Result<IoTarget, Errno>)
        requires
            self.wf(),
        ensures
            owns(self@, handle, owner) ==> r == read_target_of(self@[handle].kind, self@[handle].pos),
            !owns(self@, handle, owner) ==> r == Err::<IoTarget, Errno>(Errno::EINVALH),
    {
        let opened = match self.lookup_owned(handle, owner) {
            Ok(opened) => opened,
            Err(e) => {
                return Err(e);
            },
        };
        match opened.kind {
            ObjectKind::File => Ok(IoTarget::File(opened.pos)),
            ObjectKind::Pipe => Ok(IoTarget::Pipe),
            ObjectKind::Directory => Err(Errno::EISDIR),
            ObjectKind::Other => Err(Errno::ENOTSUP),
        }
    }

    /// Where writing to a handle puts its data.
    pub fn write_target(&self, handle: usize, owner: u128) -> (r: Result<IoTarget, Errno>)
        requires
            self.wf(),
        ensures
            owns(self@, handle, owner) ==> r == write_target_of(
                self@[handle].kind,
                self@[handle].pos,
            ),
            !owns(self@, handle, owner) ==> r == Err::<IoTarget, Errno>(Errno::EINVALH),
    {
        let opened = match self.lookup_owned(handle, owner) {
            Ok(opened) => opened,
            Err(e) => {
                return Err(e);
            },
        };
        match opened.kind {
            ObjectKind::File => Ok(IoTarget::File(opened.pos)),
            ObjectKind::Pipe => Ok(IoTarget::Pipe),
            ObjectKind::Directory => Err(Errno::EBADF),
            ObjectKind::Other => Err(Errno::ENOTSUP),
        }
    }

    fn set_pos(&mut self, handle: usize, pos: usize)
        requires
            old(self).wf(),
            old(self)@.contains_key(handle),
        ensures
            final(self).wf(),
            final(self)@ == at_position(old(self)@, handle, pos),
            final(self).order() == old(self).order(),
    {
        let ghost before = self.open_handles@;
        match self.find(handle) {
            Some(i) => {
                self.open_handles[i].1.pos = pos;
                proof {
                    let after = self.open_handles@;
                    let i = i as int;
                    assert(after[i].0 == before[i].0);
                    assert(after[i].1 == (OpenedObject { pos, ..before[i].1 }));
                    assert(forall|k: int| 0 <= k < before.len() && k != i ==> after[k] == before[k]);
                    lemma_entry_updated(before, after, i);
                    assert(self.order() =~= old(self).order());
                }
            },
            None => {},
        }
    }

    /// Account for `count` bytes that were read from a handle or written to it:
    /// they move the position in a file and mean nothing to a pipe.
    pub fn advance(&mut self, handle: usize, owner: u128, count: usize) -> (r: Result<usize, Errno>)
        requires
            old(self).wf(),
            owns(old(self)@, handle, owner) && old(self)@[handle].kind == ObjectKind::File
                ==> old(self)@[handle].pos + count <= usize::MAX,
        ensures
            final(self).wf(),
            final(self).order() == old(self).order(),
            owns(old(self)@, handle, owner) ==> r == Ok::<usize, Errno>(count) && final(self)@ == (
            if old(self)@[handle].kind == ObjectKind::File {
                at_position(old(self)@, handle, (old(self)@[handle].pos + count) as usize)
            } else {
                old(self)@
            }),
            !owns(old(self)@, handle, owner) ==> r == Err::<usize, Errno>(Errno::EINVALH) && final(
                self)@ == old(self)@,
    {
        let (kind, pos) = match self.lookup_owned(handle, owner) {
            Ok(opened) => (opened.kind, opened.pos),
            Err(e) => {
                return Err(e);
            },
        };
        if kind == ObjectKind::File {
            self.set_pos(handle, pos + count);
        }
        Ok(count)
    }

    /// Move the position in a file. `size` is what asking the file for its size
    /// gave; only a seek from the end looks at it.
    pub fn seek(
        &mut self,
        handle: usize,
        owner: u128,
        offset: isize,
        origin: SeekOrigin,
        size: Result<usize, Errno>,
    ) -> (r: Result<usize, Errno>)
        requires
            old(self).wf(),
            owns(old(self)@, handle, owner) && old(self)@[handle].kind == ObjectKind::File
                ==> seek_fits(
                origin,
                offset,
                old(self)@[handle].pos,
                size,
            ),
        ensures
            final(self).wf(),
            final(self).order() == old(self).order(),
            !owns(old(self)@, handle, owner) ==> r == Err::<usize, Errno>(Errno::EINVALH) && final(
                self)@ == old(self)@,
            owns(old(self)@, handle, owner) ==> {
                let opened = old(self)@[handle];
                if opened.kind != ObjectKind::File {
                    r == Err::<usize, Errno>(Errno::ENOTSUP) && final(self)@ == old(self)@
                } else {
                    match (origin, size) {
                        (SeekOrigin::End, Err(e)) => r == Err::<usize, Errno>(e) && final(self)@
                            == old(self)@,
                        _ => {
                            let pos = seek_position(origin, offset, opened.pos, size);
                            r == Ok::<usize, Errno>(pos) && final(self)@ == at_position(
                                old(self)@,
                                handle,
                                pos,
                            )
                        },
                    }
                }
            },
    {
        let (kind, pos) = match self.lookup_owned(handle, owner) {
            Ok(opened) => (opened.kind, opened.pos),
            Err(e) => {
                return Err(e);
            },
        };
        if kind != ObjectKind::File {
            return Err(Errno::ENOTSUP);
        }
        let value: isize = match origin {
            SeekOrigin::Start => offset,
            SeekOrigin::End => match size {
                Ok(size) => to_signed(size) + offset,
                Err(e) => {
                    return Err(e);
                },
            },
            SeekOrigin::Current => to_signed(pos) + offset,
        };
        let new_pos: usize = if value >= 0 {
            value as usize
        } else {
            let below: usize = (-(value + 1)) as usize;
            usize::MAX - below
        };
        self.set_pos(handle, new_pos);
        Ok(new_pos)
    }

    /// The number of the next entry of a directory.
    pub fn readdir_position(&self, handle: usize, owner: u128) -> (r: Result<usize, Errno>)
        requires
            self.wf(),
        ensures
            !owns(self@, handle, owner) ==> r == Err::<usize, Errno>(Errno::EINVALH),
            owns(self@, handle, owner) ==> r == (if self@[handle].kind == ObjectKind::Directory {
                Ok::<usize, Errno>(self@[handle].pos)
            } else {
                Err::<usize, Errno>(Errno::ENOTSUP)
            }),
    {
        let opened = match self.lookup_owned(handle, owner) {
            Ok(opened) => opened,
            Err(e) => {
                return Err(e);
            },
        };
        if opened.kind == ObjectKind::Directory {
            Ok(opened.pos)
        } else {
            Err(Errno::ENOTSUP)
        }
    }

    /// Take note of the entry that reading a directory gave: the next read asks for
    /// the entry after it, also where there was none.
    pub fn readdir<D>(&mut self, handle: usize, owner: u128, entry: Result<Option<D>, Errno>) -> (r:
        Result<Option<D>, Errno>)
        requires
            old(self).wf(),
            owns(old(self)@, handle, owner) && old(self)@[handle].kind == ObjectKind::Directory
                && entry is Ok ==> old(self)@[handle].pos < usize::MAX,
        ensures
            final(self).wf(),
            final(self).order() == old(self).order(),
            !owns(old(self)@, handle, owner) ==> r == Err::<Option<D>, Errno>(Errno::EINVALH)
                && final(self)@ == old(self)@,
            owns(old(self)@, handle, owner) ==> {
                if old(self)@[handle].kind != ObjectKind::Directory {
                    r == Err::<Option<D>, Errno>(Errno::ENOTSUP) && final(self)@ == old(self)@
                } else if entry is Err {
                    r == entry && final(self)@ == old(self)@
                } else {
                    r == entry && final(self)@ == at_position(
                        old(self)@,
                        handle,
                        (old(self)@[handle].pos + 1) as usize,
                    )
                }
            },
    {
        let pos: usize = match self.readdir_position(handle, owner) {
            Ok(pos) => pos,
            Err(e) => {
                return Err(e);
            },
        };
        match entry {
            Ok(entry) => {
                self.set_pos(handle, pos + 1);
                Ok(entry)
            },
            Err(e) => Err(e),
        }
    }

    /// Take back all handles of a process and return what they stood for, in the
    /// order of the table. The others keep their order.
    pub fn drain_owned(&mut self, owner: u128) -> (r: Vec<OpenedObject<T>>)
        requires
            old(self).wf(),
        ensures
            final(self).wf(),
            final(self)@ == without_owner(old(self)@, owner),
            final(self).order() == handles_left(old(self).order(), old(self)@, owner),
            ({
                let handles = handles_of(old(self).order(), old(self)@, owner);
                &&& lists_owned(handles, old(self)@, owner)
                &&& r@ == Seq::new(handles.len(), |i: int| old(self)@[handles[i]])
            }),
    {
        let ghost map = self@;
        let ghost all = self.order();
        let ghost mut seen: int = 0;
        proof {
            reveal(Seq::filter);
            assert(all.take(0) =~= Seq::empty());
            assert(handles_of(all.take(0), map, owner) =~= Seq::empty());
            assert(handles_left(all.take(0), map, owner) =~= Seq::empty());
            assert(Seq::<usize>::empty() + all.skip(0) =~= all);
        }
        let ghost mut handles: Seq<usize> = Seq::empty();
        let mut victims: Vec<OpenedObject<T>> = Vec::new();
        let mut i: usize = 0;
        while i < self.open_handles.len()
            invariant
                self.wf(),
                i <= self.open_handles@.len(),
                0 <= seen <= all.len(),
                i == handles_left(all.take(seen), map, owner).len(),
                self.order() == handles_left(all.take(seen), map, owner) + all.skip(seen),
                handles == handles_of(all.take(seen), map, owner),
                forall|k: int|
                    0 <= k < i ==> (#[trigger] self.open_handles@[k]).1.owner != owner,
                handles.no_duplicates(),
                forall|k: int| 0 <= k < handles.len() ==> owns(map, #[trigger] handles[k], owner),
                victims@ == Seq::new(handles.len(), |k: int| map[handles[k]]),
                forall|h: usize|
                    #![trigger self@.contains_key(h)]
                    #![trigger map.contains_key(h)]
                    self@.contains_key(h) <==> map.contains_key(h) && !handles.contains(h),
                forall|h: usize| #[trigger] self@.contains_key(h) ==> self@[h] == map[h],
            decreases self.open_handles@.len() - i,
        {
            let ghost before = self.open_handles@;
            let ghost view = self@;
            let ghost at = before[i as int].0;
            let ghost left = handles_left(all.take(seen), map, owner);
            proof {
                lemma_objects_at(before, i as int);
                assert(view.contains_key(at));
                assert(map.contains_key(at));
                assert(self.order()[i as int] == at);
                assert(all[seen] == at);
                assert(all.take(seen + 1) =~= all.take(seen).push(at));
                lemma_handles_push(all.take(seen), at, map, owner);
            }
            if self.open_handles[i].1.owner == owner {
                let (handle, opened) = self.open_handles.remove(i);
                self.free_handles[handle] = 0;
                victims.push(opened);
                proof {
                    lemma_entry_removed(before, self.open_handles@, i as int);
                    assert(self@ =~= view.remove(at));
                    let listed = handles;
                    handles = handles.push(at);
                    assert(self.order() =~= handle_order(before).remove(i as int));
                    assert(self.order() =~= left + all.skip(seen + 1));
                    seen = seen + 1;
                    assert(victims@ =~= Seq::new(handles.len(), |k: int| map[handles[k]]));
                    assert forall|h: usize| handles.contains(h) <==> (listed.contains(h) || h
                        == at) by {
                        if listed.contains(h) {
                            let k = choose|k: int| 0 <= k < listed.len() && listed[k] == h;
                            assert(handles[k] == h);
                        }
                        if h == at {
                            assert(handles[listed.len() as int] == h);
                        }
                        if handles.contains(h) {
                            let k = choose|k: int| 0 <= k < handles.len() && handles[k] == h;
                            if k < listed.len() {
                                assert(listed[k] == h);
                            }
                        }
                    }
                    assert forall|h: usize|
                        #![trigger self@.contains_key(h)]
                        #![trigger map.contains_key(h)]
                        self@.contains_key(h) <==> map.contains_key(h) && !handles.contains(h) by {
                        assert(view.contains_key(h) <==> map.contains_key(h) && !listed.contains(h));
                    }
                    assert forall|k: int| 0 <= k < i implies (
                    #[trigger] self.open_handles@[k]).1.owner != owner by {
                        assert(self.open_handles@[k] == before[k]);
                    }
                }
            } else {
                proof {
                    assert(self.order() =~= left.push(at) + all.skip(seen + 1));
                    seen = seen + 1;
                }
                i = i + 1;
            }
        }
        proof {
            assert(seen == all.len());
            assert(all.take(seen) =~= all);
            assert(handles_left(all, map, owner) + all.skip(seen) =~= handles_left(all, map, owner));
            assert forall|h: usize| owns(map, h, owner) implies #[trigger] handles.contains(h) by {
                if !handles.contains(h) {
                    assert(self@.contains_key(h));
                    let k = index_of(self.open_handles@, h);
                    lemma_objects_at(self.open_handles@, k);
                    assert(self.open_handles@[k].1.owner != owner);
                }
            }
            assert(self@ =~= without_owner(map, owner)) by {
                assert forall|h: usize| #[trigger] self@.contains_key(h) <==> without_owner(
                    map,
                    owner,
                ).contains_key(h) by {
                    if handles.contains(h) {
                        let k = choose|k: int| 0 <= k < handles.len() && handles[k] == h;
                        assert(owns(map, handles[k], owner));
                    }
                    if map.contains_key(h) && map[h].owner == owner {
                        assert(owns(map, h, owner));
                        assert(handles.contains(h));
                    }
                }
            }
            assert(lists_owned(handles, map, owner));
        }
        victims
    }
}

/// Taking one entry out, wherever the others go, takes its handle out of the map
/// and leaves the other handles alone.
proof fn lemma_entry_removed<T>(
    before: Seq<(usize, OpenedObject<T>)>,
    after: Seq<(usize, OpenedObject<T>)>,
    i: int,
)
    requires
        distinct(before),
        0 <= i < before.len(),
        after =~= before.remove(i) || after =~= before.update(i, before.last()).drop_last(),
    ensures
        distinct(after),
        objects(after) == objects(before).remove(before[i].0),
        forall|h: usize|
            has_handle(after, h) <==> #[trigger] has_handle(before, h) && h != before[i].0,
{
    let at = before[i].0;
    let last = before.len() - 1;
    let shifted = after =~= before.remove(i);
    assert forall|k: int| 0 <= k < after.len() implies exists|j: int|
        0 <= j < before.len() && j != i && #[trigger] after[k] == #[trigger] before[j] by {
        let j = if shifted {
            if k < i {
                k
            } else {
                k + 1
            }
        } else if k == i {
            last
        } else {
            k
        };
        assert(after[k] == before[j]);
    }
    assert forall|j: int| 0 <= j < before.len() && j != i implies exists|k: int|
        0 <= k < after.len() && #[trigger] after[k] == #[trigger] before[j] by {
        let k = if shifted {
            if j < i {
                j
            } else {
                j - 1
            }
        } else if j == last {
            i
        } else {
            j
        };
        assert(after[k] == before[j]);
    }
    assert forall|h: usize|
        has_handle(after, h) <==> #[trigger] has_handle(before, h) && h != at by {
        if has_handle(after, h) {
            let k = index_of(after, h);
            let j = choose|j: int|
                0 <= j < before.len() && j != i && #[trigger] after[k] == #[trigger] before[j];
            assert(before[j].0 == h);
        }
        if has_handle(before, h) && h != at {
            let j = index_of(before, h);
            let k = choose|k: int| 0 <= k < after.len() && #[trigger] after[k] == before[j];
            assert(after[k].0 == h);
        }
    }
    assert(distinct(after)) by {
        assert forall|a: int, b: int|
            0 <= a < after.len() && 0 <= b < after.len() && (#[trigger] after[a]).0 == (
            #[trigger] after[b]).0 implies a == b by {
            let ja = if shifted {
                if a < i {
                    a
                } else {
                    a + 1
                }
            } else if a == i {
                last
            } else {
                a
            };
            let jb = if shifted {
                if b < i {
                    b
                } else {
                    b + 1
                }
            } else if b == i {
                last
            } else {
                b
            };
            assert(after[a] == before[ja] && after[b] == before[jb]);
            assert(before[ja].0 == before[jb].0);
        }
    }
    assert(objects(after) =~= objects(before).remove(at)) by {
        assert forall|h: usize| objects(after).contains_key(h) implies objects(after)[h] == objects(
            before,
        ).remove(at)[h] by {
            assert(has_handle(before, h));
            let k = index_of(after, h);
            let j = choose|j: int|
                0 <= j < before.len() && j != i && #[trigger] after[k] == #[trigger] before[j];
            lemma_objects_at(after, k);
            lemma_objects_at(before, j);
        }
    }
}

/// Changing an object leaves its handle and the other objects alone.
proof fn lemma_entry_updated<T>(
    before: Seq<(usize, OpenedObject<T>)>,
    after: Seq<(usize, OpenedObject<T>)>,
    i: int,
)
    requires
        distinct(before),
        0 <= i < before.len(),
        after =~= before.update(i, (before[i].0, after[i].1)),
    ensures
        distinct(after),
        objects(after) == objects(before).insert(before[i].0, after[i].1),
        forall|h: usize| has_handle(after, h) <==> #[trigger] has_handle(before, h),
{
    assert(forall|k: int| 0 <= k < before.len() ==> (#[trigger] after[k]).0 == before[k].0);
    assert forall|h: usize| has_handle(after, h) <==> #[trigger] has_handle(before, h) by {
        if has_handle(before, h) {
            let k = index_of(before, h);
            assert(after[k].0 == h);
        }
        if has_handle(after, h) {
            let k = index_of(after, h);
            assert(before[k].0 == h);
        }
    }
    assert(distinct(after)) by {
        assert forall|a: int, b: int|
            0 <= a < after.len() && 0 <= b < after.len() && (#[trigger] after[a]).0 == (
            #[trigger] after[b]).0 implies a == b by {
            assert(before[a].0 == before[b].0);
        }
    }
    lemma_objects_at(before, i);
    assert(objects(after) =~= objects(before).insert(before[i].0, after[i].1)) by {
        assert forall|h: usize| objects(after).contains_key(h) implies objects(after)[h] == objects(
            before,
        ).insert(before[i].0, after[i].1)[h] by {
            let k = index_of(after, h);
            lemma_objects_at(after, k);
            lemma_objects_at(before, k);
        }
    }
}

/// The nil identifier of the `uuid` crate, which `Uuid::nil` returns and `as_u128`
/// gives as the number zero.
#[verifier::external_body]
fn nil_id() -> (r: u128)
    ensures
        r == 0,
{
    Uuid::nil().as_u128()
}

/// The process that an object opened now belongs to: that of the running thread, or
/// the kernel process, whose identifier is nil, before there is one.
pub fn current_owner(running: Option<u128>) -> (r: u128)
    ensures
        r == (match running {
            Some(id) => id,
            None => 0,
        }),
{
    match running {
        Some(id) => id,
        None => nil_id(),
    }
}

/// At most one handle is the lowest free one.
pub proof fn law_lowest_free_is_unique(used: Set<usize>, a: usize, b: usize)
    requires
        is_lowest_free(used, a),
        is_lowest_free(used, b),
    ensures
        a == b,
{
    if a < b {
        assert(used.contains(a));
    } else if b < a {
        assert(used.contains(b));
    }
}

/// A handle is free unless it is in use: as long as not every handle is used, one of
/// them is the lowest free one.
pub proof fn law_some_handle_is_free(used: Set<usize>)
    requires
        !all_used(used),
    ensures
        exists|h: usize| is_lowest_free(used, h),
{
    let h = choose|h: usize| h < MAX_OPEN_OBJECTS && !(#[trigger] used.contains(h));
    lemma_lowest_below(used, h);
}

proof fn lemma_lowest_below(used: Set<usize>, h: usize)
    requires
        h < MAX_OPEN_OBJECTS,
        !used.contains(h),
    ensures
        exists|l: usize| is_lowest_free(used, l),
    decreases h,
{
    if forall|k: usize| k < h ==> #[trigger] used.contains(k) {
        assert(is_lowest_free(used, h));
    } else {
        let k = choose|k: usize| k < h && !(#[trigger] used.contains(k));
        lemma_lowest_below(used, k);
    }
}

/// A seek by an offset and one back by the same offset, both from the current
/// position, lead to where they began, also by way of a place before the start.
pub proof fn law_seek_back(pos: usize, offset: isize)
    requires
        seek_fits(SeekOrigin::Current, offset, pos, Ok(0)),
        offset > isize::MIN,
    ensures
        ({
            let there = seek_position(SeekOrigin::Current, offset, pos, Ok(0));
            let back = (-offset) as isize;
            &&& seek_fits(SeekOrigin::Current, back, there, Ok(0))
            &&& seek_position(SeekOrigin::Current, back, there, Ok(0)) == pos
        }),
{
}

/// Opening an object and closing it again leaves the table as it was.
pub proof fn law_open_close<T>(
    map: Map<usize, OpenedObject<T>>,
    handle: usize,
    opened: OpenedObject<T>,
)
    requires
        is_lowest_free(map.dom(), handle),
    ensures
        owns(map.insert(handle, opened), handle, opened.owner),
        map.insert(handle, opened).remove(handle) == map,
{
    assert(map.insert(handle, opened).remove(handle) =~= map);
}

/// Opening an object and closing it again leaves the other handles in their order.
pub proof fn law_open_close_order(order: Seq<usize>, handle: usize)
    requires
        !order.contains(handle),
    ensures
        handle_dropped(order.push(handle), handle) == order,
{
    let longer = order.push(handle);
    assert(longer[order.len() as int] == handle);
    let i = longer.index_of(handle);
    if i < order.len() {
        assert(order[i] == handle);
    }
    assert(handle_dropped(longer, handle) =~= order);
}

/// When a process exits, whatever it opened in the meantime, the table is again as
/// if it had never opened anything: its handles are free, all others are kept.
pub proof fn law_exit_reclaims<T>(
    before: Map<usize, OpenedObject<T>>,
    opened: Map<usize, OpenedObject<T>>,
    owner: u128,
)
    requires
        forall|h: usize| #[trigger] before.contains_key(h) ==> before[h].owner != owner,
        forall|h: usize| #[trigger] opened.contains_key(h) ==> opened[h].owner == owner,
        before.dom().disjoint(opened.dom()),
    ensures
        without_owner(before.union_prefer_right(opened), owner) == before,
{
    assert forall|h: usize| before.contains_key(h) implies !opened.contains_key(h) by {
        assert(before.dom().contains(h));
    }
    assert(without_owner(before.union_prefer_right(opened), owner) =~= before);
}

/// The exit of one process takes nothing from another, and leaves nothing of its own.
pub proof fn law_exit_spares_others<T>(
    map: Map<usize, OpenedObject<T>>,
    owner: u128,
    other: u128,
    handle: usize,
)
    ensures
        !owns(without_owner(map, owner), handle, owner),
        owner != other ==> (owns(without_owner(map, owner), handle, other) <==> owns(
            map,
            handle,
            other,
        )),
        owns(without_owner(map, owner), handle, other) ==> without_owner(map, owner)[handle]
            == map[handle],
{
}

/// What is not there cannot be opened; only a directory can be opened as one; a directory
/// is opened for reading only; everything else can be opened, and a pipe is opened itself.
pub proof fn law_open_rules(kind: ObjectKind, flags: OpenOptions)
    ensures
        open_allowed(None, flags) == Err::<OpenStep, Errno>(Errno::ENOENT),
        flags.directory && !(kind is Directory) ==> open_allowed(Some(kind), flags) == Err::<
            OpenStep,
            Errno,
        >(Errno::ENOTDIR),
        kind is Directory && (flags.write_only || flags.read_write) ==> open_allowed(
            Some(kind),
            flags,
        ) == Err::<OpenStep, Errno>(Errno::EISDIR),
        kind is Directory && !flags.write_only && !flags.read_write ==> open_allowed(
            Some(kind),
            flags,
        ) == Ok::<OpenStep, Errno>(OpenStep::Allocate),
        kind is Pipe && !flags.directory ==> open_allowed(Some(kind), flags) == Ok::<
            OpenStep,
            Errno,
        >(OpenStep::OpenPipe),
        (kind is File || kind is Other) && !flags.directory ==> open_allowed(Some(kind), flags)
            == Ok::<OpenStep, Errno>(OpenStep::Allocate),
{
}

/// Opening is refused for a reason of the object or, with a pipe that may be opened, for
/// that of the pipe.
pub proof fn law_open_refused(
    found: Option<ObjectKind>,
    flags: OpenOptions,
    pipe: Result<usize, Errno>,
)
    ensures
        open_allowed(found, flags) matches Err(e) ==> open_refused(found, flags, pipe) == Some(e),
        found == Some(ObjectKind::Pipe) && !flags.directory ==> match pipe {
            Ok(_) => open_refused(found, flags, pipe) is None,
            Err(e) => open_refused(found, flags, pipe) == Some(e),
        },
        open_allowed(found, flags) == Ok::<OpenStep, Errno>(OpenStep::Allocate) ==> open_refused(
            found,
            flags,
            pipe,
        ) is None,
{
}

/// Files are read and written at their position and pipes without one. A directory can be
/// neither read nor written, each for a reason of its own, and nothing else is supported.
pub proof fn law_io_targets(pos: usize)
    ensures
        read_target_of(ObjectKind::File, pos) == Ok::<IoTarget, Errno>(IoTarget::File(pos)),
        write_target_of(ObjectKind::File, pos) == Ok::<IoTarget, Errno>(IoTarget::File(pos)),
        read_target_of(ObjectKind::Pipe, pos) == Ok::<IoTarget, Errno>(IoTarget::Pipe),
        write_target_of(ObjectKind::Pipe, pos) == Ok::<IoTarget, Errno>(IoTarget::Pipe),
        read_target_of(ObjectKind::Directory, pos) == Err::<IoTarget, Errno>(Errno::EISDIR),
        write_target_of(ObjectKind::Directory, pos) == Err::<IoTarget, Errno>(Errno::EBADF),
        read_target_of(ObjectKind::Other, pos) == Err::<IoTarget, Errno>(Errno::ENOTSUP),
        write_target_of(ObjectKind::Other, pos) == Err::<IoTarget, Errno>(Errno::ENOTSUP),
{
}

/// A seek goes to the offset itself, or so far from the end or from where one is.
pub proof fn law_seek_from(offset: isize, pos: usize, size: usize)
    ensures
        offset >= 0 ==> seek_position(SeekOrigin::Start, offset, pos, Ok(size)) == offset,
        size <= isize::MAX && 0 <= size + offset <= isize::MAX ==> seek_position(
            SeekOrigin::End,
            offset,
            pos,
            Ok(size),
        ) == size + offset,
        pos <= isize::MAX && 0 <= pos + offset <= isize::MAX ==> seek_position(
            SeekOrigin::Current,
            offset,
            pos,
            Ok(size),
        ) == pos + offset,
        offset < 0 ==> seek_position(SeekOrigin::Start, offset, pos, Ok(size)) == usize::MAX + 1
            + offset,
{
}

/// Another position for a handle changes this position and nothing else.
pub proof fn law_position_alone<T>(
    map: Map<usize, OpenedObject<T>>,
    handle: usize,
    pos: usize,
    other: usize,
)
    requires
        map.contains_key(handle),
    ensures
        ({
            let after = at_position(map, handle, pos);
            &&& after[handle].pos == pos
            &&& after[handle].owner == map[handle].owner
            &&& after[handle] == (OpenedObject { pos, ..map[handle] })
            &&& after.contains_key(other) <==> map.contains_key(other)
            &&& other != handle && map.contains_key(other) ==> after[other] == map[other]
        }),
{
}

/// A handle that is taken out leaves the others in their places, but for the last one,
/// which takes the place that became free.
pub proof fn law_handle_dropped(order: Seq<usize>, k: int)
    requires
        0 <= k < order.len(),
        order.no_duplicates(),
    ensures
        ({
            let after = handle_dropped(order, order[k]);
            let n = order.len() as int;
            &&& after.len() == n - 1
            &&& k < n - 1 ==> after[k] == order[n - 1]
            &&& forall|i: int| 0 <= i < n - 1 && i != k ==> #[trigger] after[i] == order[i]
        }),
{
    let at = order.index_of(order[k]);
    assert(order.contains(order[k]));
    assert(order[at] == order[k] && at == k);
}

/// Without those of a process, exactly the objects of the others are left, as they were.
pub proof fn law_without_owner<T>(map: Map<usize, OpenedObject<T>>, owner: u128, handle: usize)
    ensures
        without_owner(map, owner).contains_key(handle) <==> map.contains_key(handle)
            && map[handle].owner != owner,
        without_owner(map, owner).contains_key(handle) ==> without_owner(map, owner)[handle]
            == map[handle],
{
}

} // verus!
