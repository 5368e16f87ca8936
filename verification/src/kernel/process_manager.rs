//! The list of processes.
//!
//! The first active process is the kernel process. A process that exited is kept
//! over one more clean-up, because its last thread may still be running on a stack
//! in its address space.

use vstd::prelude::*;
use vstd::arithmetic::power::pow;

use std::sync::Arc;
use uuid::Uuid;

use crate::text::{decimal, hex_digit, push_decimal};

verus! {

/// Size of a page and of a frame in bytes.
pub const PAGE_SIZE: u64 = 4096;

/// A process and its address space.
pub struct Process<S> {
    pub id: u128,
    pub name: String,
    pub virtual_address_space: S,
}

/// A range of physical memory that starts and ends at a frame; the end is not part
/// of it.
#[derive(Copy, Clone, Debug, PartialEq, Eq, Structural)]
pub struct FrameRange {
    pub start: u64,
    pub end: u64,
}

/// What an area of an address space is used for.
#[derive(Copy, Clone, Debug, PartialEq, Eq, Structural)]
pub enum VmaType {
    Heap,
    Code,
}

/// An area that the kernel's address space has from the start.
pub struct KernelArea {
    pub start: u64,
    pub pages: u64,
    pub kind: VmaType,
    pub name: &'static str,
}

/// Number of frames in a range.
pub open spec fn frames_in(range: FrameRange) -> int {
    if range.start < range.end {
        (range.end - range.start) / (PAGE_SIZE as int)
    } else {
        0
    }
}

impl FrameRange {
    /// Number of frames in the range.
    pub fn len(self) -> (r: u64)
        ensures
            r == frames_in(self),
    {
        if self.start < self.end {
            (self.end - self.start) / PAGE_SIZE
        } else {
            0
        }
    }
}

/// The areas for the kernel's heap and for its image, each at the address of the
/// memory that it maps.
pub fn kernel_areas(kernel_image_region: FrameRange, heap_region: FrameRange) -> (r: (
    KernelArea,
    KernelArea,
))
    ensures
        r.0 == (KernelArea {
            start: heap_region.start,
            pages: frames_in(heap_region) as u64,
            kind: VmaType::Heap,
            name: "heap",
        }),
        r.1 == (KernelArea {
            start: kernel_image_region.start,
            pages: frames_in(kernel_image_region) as u64,
            kind: VmaType::Code,
            name: "code",
        }),
{
    (
        KernelArea {
            start: heap_region.start,
            pages: heap_region.len(),
            kind: VmaType::Heap,
            name: "heap",
        },
        KernelArea {
            start: kernel_image_region.start,
            pages: kernel_image_region.len(),
            kind: VmaType::Code,
            name: "code",
        },
    )
}

/// `Arc::clone` of the standard library, which gives another pointer to the same
/// value.
#[verifier::external_body]
fn share<T>(pointer: &Arc<T>) -> (r: Arc<T>)
    ensures
        r == *pointer,
{
    Arc::clone(pointer)
}

/// The digits of an identifier, from the highest to the lowest, in groups of eight,
/// four, four, four and twelve with a hyphen between them.
pub open spec fn id_text(id: u128) -> Seq<char> {
    Seq::new(
        36,
        |i: int|
            if i == 8 || i == 13 || i == 18 || i == 23 {
                '-'
            } else {
                hex_digit(
                    (id as int / pow(16, (31 - digit_index(i)) as nat) % 16) as nat,
                )
            },
    )
}

/// Which digit of the identifier stands at a place of its text.
pub open spec fn digit_index(place: int) -> int {
    if place < 8 {
        place
    } else if place < 13 {
        place - 1
    } else if place < 18 {
        place - 2
    } else if place < 23 {
        place - 3
    } else {
        place - 4
    }
}

/// The text of an identifier as `Display` for `uuid::Uuid` writes it: hyphenated,
/// in lower case.
#[verifier::external_body]
fn format_id(id: u128) -> (r: String)
    ensures
        r@ == id_text(id),
{
    format!("{}", Uuid::from_u128(id))
}

/// The three lists of processes.
#[verifier::ext_equal]
pub struct Processes<S> {
    pub active: Seq<Arc<Process<S>>>,
    pub exited: Seq<Arc<Process<S>>>,
    pub graveyard: Seq<Arc<Process<S>>>,
}

impl<S> Processes<S> {
    /// The process is active.
    pub open spec fn is_active(self, id: u128) -> bool {
        exists|i: int| 0 <= i < self.active.len() && (#[trigger] self.active[i]).id == id
    }

    /// `i` is the place of the first active process with this identifier.
    pub open spec fn is_first(self, id: u128, i: int) -> bool {
        &&& 0 <= i < self.active.len()
        &&& self.active[i].id == id
        &&& forall|k: int| 0 <= k < i ==> (#[trigger] self.active[k]).id != id
    }

    /// The process at place `i` has exited; the last one takes its place.
    pub open spec fn retired(self, i: int) -> Processes<S> {
        Processes {
            active: self.active.update(i, self.active.last()).drop_last(),
            exited: self.exited.push(self.active[i]),
            graveyard: self.graveyard,
        }
    }

    /// After a clean-up.
    pub open spec fn cleaned(self) -> Processes<S> {
        Processes { active: self.active, exited: Seq::empty(), graveyard: self.exited }
    }

    /// The process is still kept, in whichever list.
    pub open spec fn keeps(self, process: Arc<Process<S>>) -> bool {
        self.active.contains(process) || self.exited.contains(process) || self.graveyard.contains(
            process,
        )
    }
}

/// One step of a listing of the processes.
pub enum DumpStep<S> {
    /// A line of text.
    Line(String),
    /// The address space of a process.
    Space(Arc<Process<S>>),
}

/// A step of a listing, as it reads.
#[verifier::ext_equal]
pub enum Dumped<S> {
    Line(Seq<char>),
    Space(Arc<Process<S>>),
}

impl<S> View for DumpStep<S> {
    type V = Dumped<S>;

    open spec fn view(&self) -> Dumped<S> {
        match *self {
            DumpStep::Line(line) => Dumped::Line(line@),
            DumpStep::Space(process) => Dumped::Space(process),
        }
    }
}

/// The steps as they read.
pub open spec fn dumped<S>(steps: Seq<DumpStep<S>>) -> Seq<Dumped<S>> {
    Seq::new(steps.len(), |i: int| steps[i]@)
}

/// The line for the process at place `i`.
pub open spec fn dump_line<S>(process: Process<S>, i: int) -> Seq<char> {
    "Process #"@ + decimal(i as nat) + ": PID="@ + id_text(process.id) + ", name="@
        + process.name@
}

/// The part of the listing that covers the first `count` processes.
pub open spec fn dump_of<S>(active: Seq<Arc<Process<S>>>, count: int) -> Seq<Dumped<S>>
    decreases count,
{
    if count <= 0 {
        Seq::empty()
    } else {
        dump_of(active, count - 1).push(
            Dumped::Line(dump_line(*active[count - 1], count - 1)),
        ).push(Dumped::Space(active[count - 1]))
    }
}

/// The processes.
pub struct ProcessManager<S> {
    active_processes: Vec<Arc<Process<S>>>,
    exited_processes: Vec<Arc<Process<S>>>,
    graveyard: Vec<Arc<Process<S>>>,
}

impl<S> View for ProcessManager<S> {
    type V = Processes<S>;

    closed spec fn view(&self) -> Processes<S> {
        Processes {
            active: self.active_processes@,
            exited: self.exited_processes@,
            graveyard: self.graveyard@,
        }
    }
}

fn text_line<S>(text: &str) -> (r: DumpStep<S>)
    ensures
        r@ == Dumped::<S>::Line(text@),
{
    DumpStep::Line(text.to_owned())
}

impl<S> ProcessManager<S> {
    /// No processes.
    pub fn new() -> (r: ProcessManager<S>)
        ensures
            r@ == (Processes::<S> {
                active: Seq::empty(),
                exited: Seq::empty(),
                graveyard: Seq::empty(),
            }),
    {
        ProcessManager {
            active_processes: Vec::new(),
            exited_processes: Vec::new(),
            graveyard: Vec::new(),
        }
    }

    /// Create a process in a copy of the kernel's address space.
    pub fn create_process(&mut self, id: u128, virtual_address_space: S, name: String) -> (r: Arc<
        Process<S>,
    >)
        requires
            old(self)@.active.len() > 0,
        ensures
            r == Arc::new(Process { id, name, virtual_address_space }),
            final(self)@ == (Processes { active: old(self)@.active.push(r), ..old(self)@ }),
    {
        let process = Arc::new(Process { id, name, virtual_address_space });
        self.active_processes.push(share(&process));
        process
    }

    /// Create the kernel process. Its identifier is nil.
    pub fn create_kernel_process(&mut self, virtual_address_space: S, name: String) -> (r: Arc<
        Process<S>,
    >)
        requires
            old(self)@.active.len() == 0,
        ensures
            r == Arc::new(Process { id: 0, name, virtual_address_space }),
            final(self)@ == (Processes { active: old(self)@.active.push(r), ..old(self)@ }),
    {
        let process = Arc::new(Process { id: 0, name, virtual_address_space });
        self.active_processes.push(share(&process));
        process
    }

    /// The identifiers of all active processes.
    pub fn active_process_ids(&self) -> (r: Vec<u128>)
        ensures
            r@ == Seq::new(self@.active.len(), |i: int| self@.active[i].id),
    {
        let mut ids: Vec<u128> = Vec::new();
        let mut i: usize = 0;
        while i < self.active_processes.len()
            invariant
                i <= self.active_processes@.len(),
                ids@ == Seq::new(i as nat, |k: int| self.active_processes@[k].id),
            decreases self.active_processes@.len() - i,
        {
            ids.push(self.active_processes[i].id);
            i = i + 1;
        }
        ids
    }

    fn position(&self, pid: u128) -> (r: Option<usize>)
        ensures
            match r {
                Some(i) => self@.is_first(pid, i as int) && self@.is_active(pid),
                None => !self@.is_active(pid),
            },
    {
        let mut i: usize = 0;
        while i < self.active_processes.len()
            invariant
                i <= self.active_processes@.len(),
                forall|k: int| 0 <= k < i ==> (#[trigger] self.active_processes@[k]).id != pid,
            decreases self.active_processes@.len() - i,
        {
            if self.active_processes[i].id == pid {
                assert(self@.active[i as int].id == pid);
                return Some(i);
            }
            i = i + 1;
        }
        None
    }

    /// Whether the process is active.
    pub fn is_active_process(&self, pid: u128) -> (r: bool)
        ensures
            r == self@.is_active(pid),
    {
        self.position(pid).is_some()
    }

    /// The process of which a snapshot is to be taken.
    pub fn get_stats(&self, pid: u128) -> (r: Option<Arc<Process<S>>>)
        ensures
            r is Some <==> self@.is_active(pid),
            r matches Some(process) ==> exists|i: int| #[trigger]
                self@.is_first(pid, i) && process == self@.active[i],
    {
        match self.position(pid) {
            Some(i) => Some(share(&self.active_processes[i])),
            None => None,
        }
    }

    /// All processes of which a snapshot is to be taken.
    pub fn get_all_stats(&self) -> (r: Vec<Arc<Process<S>>>)
        ensures
            r@ == self@.active,
    {
        let mut all: Vec<Arc<Process<S>>> = Vec::new();
        let mut i: usize = 0;
        while i < self.active_processes.len()
            invariant
                i <= self.active_processes@.len(),
                all@ == self.active_processes@.take(i as int),
            decreases self.active_processes@.len() - i,
        {
            all.push(share(&self.active_processes[i]));
            i = i + 1;
        }
        all
    }

    /// The kernel process, if it was created.
    pub fn kernel_process(&self) -> (r: Option<Arc<Process<S>>>)
        ensures
            r == (if self@.active.len() > 0 {
                Some(self@.active[0])
            } else {
                None
            }),
    {
        if self.active_processes.len() > 0 {
            Some(share(&self.active_processes[0]))
        } else {
            None
        }
    }

    /// The process of the running thread, which the scheduler names; as long as
    /// there is only the kernel process, that one.
    pub fn current_process(&self, running: Option<Arc<Process<S>>>) -> (r: Arc<Process<S>>)
        requires
            self@.active.len() > 0,
            self@.active.len() > 1 ==> running is Some,
        ensures
            r == (if self@.active.len() > 1 {
                running->0
            } else {
                self@.active[0]
            }),
    {
        if self.active_processes.len() > 1 {
            if let Some(running) = running {
                return running;
            }
        }
        share(&self.active_processes[0])
    }

    fn retire(&mut self, process_id: u128)
        requires
            old(self)@.is_active(process_id),
        ensures
            exists|i: int| #[trigger]
                old(self)@.is_first(process_id, i) && final(self)@ == old(self)@.retired(i),
    {
        let found = self.position(process_id);
        if let Some(index) = found {
            let process = self.active_processes.swap_remove(index);
            self.exited_processes.push(process);
            proof {
                assert(old(self)@.is_first(process_id, index as int));
                assert(self@ =~= old(self)@.retired(index as int));
            }
        }
    }

    /// A process whose other threads are gone exits.
    pub fn exit(&mut self, process_id: u128)
        requires
            old(self)@.is_active(process_id),
        ensures
            exists|i: int| #[trigger]
                old(self)@.is_first(process_id, i) && final(self)@ == old(self)@.retired(i),
    {
        self.retire(process_id);
    }

    /// A process whose threads were all killed is taken off the list.
    pub fn kill(&mut self, process_id: u128)
        requires
            old(self)@.is_active(process_id),
        ensures
            exists|i: int| #[trigger]
                old(self)@.is_first(process_id, i) && final(self)@ == old(self)@.retired(i),
    {
        self.retire(process_id);
    }

    /// Drop the processes that had already exited at the last clean-up.
    pub fn drop_exited_process(&mut self)
        ensures
            final(self)@ == old(self)@.cleaned(),
    {
        self.graveyard.clear();
        std::mem::swap(&mut self.graveyard, &mut self.exited_processes);
    }

    /// A listing of all active processes.
    pub fn dump(&self) -> (r: Vec<DumpStep<S>>)
        ensures
            self@.active.len() == 0 ==> dumped(r@) == seq![
                Dumped::<S>::Line("=== Active Processes Dump ==="@),
                Dumped::<S>::Line("   No active processes."@),
            ],
            self@.active.len() > 0 ==> dumped(r@) == seq![
                Dumped::<S>::Line("=== Active Processes Dump ==="@),
            ] + dump_of(self@.active, self@.active.len() as int)
                + seq![Dumped::<S>::Line("============================="@)],
    {
        let mut steps: Vec<DumpStep<S>> = Vec::new();
        steps.push(text_line("=== Active Processes Dump ==="));
        if self.active_processes.len() == 0 {
            steps.push(text_line("   No active processes."));
            proof {
                assert(dumped(steps@) =~= seq![
                    Dumped::<S>::Line("=== Active Processes Dump ==="@),
                    Dumped::<S>::Line("   No active processes."@),
                ]);
            }
            return steps;
        }
        let ghost head = seq![Dumped::<S>::Line("=== Active Processes Dump ==="@)];
        proof {
            assert(dumped(steps@) =~= head + dump_of(self.active_processes@, 0));
        }
        let mut i: usize = 0;
        while i < self.active_processes.len()
            invariant
                i <= self.active_processes@.len(),
                dumped(steps@) == head + dump_of(self.active_processes@, i as int),
            decreases self.active_processes@.len() - i,
        {
            let ghost before = steps@;
            let mut line = "Process #".to_owned();
            push_decimal(&mut line, i as u64);
            line.push_str(": PID=");
            line.push_str(format_id(self.active_processes[i].id).as_str());
            line.push_str(", name=");
            line.push_str(self.active_processes[i].name.as_str());
            proof {
                assert(line@ =~= dump_line(*self.active_processes@[i as int], i as int));
            }
            steps.push(DumpStep::Line(line));
            steps.push(DumpStep::Space(share(&self.active_processes[i])));
            proof {
                let process = self.active_processes@[i as int];
                assert(dumped(steps@) =~= dumped(before).push(
                    Dumped::Line(dump_line(*process, i as int)),
                ).push(Dumped::Space(process)));
                assert(dumped(steps@) =~= head + dump_of(self.active_processes@, i + 1));
            }
            i = i + 1;
        }
        let ghost before = steps@;
        steps.push(text_line("============================="));
        proof {
            assert(dumped(steps@) =~= dumped(before).push(
                Dumped::<S>::Line("============================="@),
            ));
            assert(dumped(steps@) =~= head + dump_of(
                self.active_processes@,
                self.active_processes@.len() as int,
            ) + seq![Dumped::<S>::Line("============================="@)]);
        }
        steps
    }
}

/// When any other process exits, the kernel process stays the first one.
pub proof fn law_kernel_process_stays<S>(processes: Processes<S>, i: int)
    requires
        0 < i < processes.active.len(),
    ensures
        processes.retired(i).active.len() > 0,
        processes.retired(i).active[0] == processes.active[0],
{
}

/// A process that exits is still kept after one clean-up, and is gone from the lists
/// of exited processes after the second.
pub proof fn law_dropped_at_second_cleanup<S>(processes: Processes<S>, i: int)
    requires
        0 <= i < processes.active.len(),
    ensures
        processes.retired(i).keeps(processes.active[i]),
        processes.retired(i).cleaned().keeps(processes.active[i]),
        processes.retired(i).cleaned().cleaned() == (Processes {
            active: processes.retired(i).active,
            exited: Seq::<Arc<Process<S>>>::empty(),
            graveyard: Seq::<Arc<Process<S>>>::empty(),
        }),
{
    let after = processes.retired(i);
    assert(after.exited[processes.exited.len() as int] == processes.active[i]);
    assert(after.exited.contains(processes.active[i]));
    assert(after.cleaned().graveyard.contains(processes.active[i]));
}

/// Where no identifier is used twice, a process that exited is no longer active, and
/// every other process still is.
pub proof fn law_exit_ends_one<S>(processes: Processes<S>, i: int, id: u128)
    requires
        0 <= i < processes.active.len(),
        forall|a: int, b: int|
            0 <= a < processes.active.len() && 0 <= b < processes.active.len() && (
            #[trigger] processes.active[a]).id == (#[trigger] processes.active[b]).id ==> a == b,
    ensures
        processes.retired(i).is_active(id) <==> processes.is_active(id) && id
            != processes.active[i].id,
{
    let after = processes.retired(i);
    let last = processes.active.len() - 1;
    if after.is_active(id) {
        let k = choose|k: int| 0 <= k < after.active.len() && (#[trigger] after.active[k]).id == id;
        let j = if k == i {
            last
        } else {
            k
        };
        assert(processes.active[j].id == id);
    }
    if processes.is_active(id) && id != processes.active[i].id {
        let j = choose|j: int|
            0 <= j < processes.active.len() && (#[trigger] processes.active[j]).id == id;
        let k = if j == last {
            i
        } else {
            j
        };
        assert(after.active[k].id == id);
    }
}

/// A process that exits joins the exited ones as the last of them. The last active process
/// takes its place, and all others stay where they are.
pub proof fn law_retired<S>(processes: Processes<S>, i: int)
    requires
        0 <= i < processes.active.len(),
    ensures
        ({
            let after = processes.retired(i);
            let n = processes.active.len() as int;
            &&& after.active.len() == n - 1
            &&& i < n - 1 ==> after.active[i] == processes.active[n - 1]
            &&& forall|k: int|
                0 <= k < n - 1 && k != i ==> #[trigger] after.active[k] == processes.active[k]
            &&& after.exited.len() == processes.exited.len() + 1
            &&& after.exited.last() == processes.active[i]
            &&& forall|k: int|
                0 <= k < processes.exited.len() ==> #[trigger] after.exited[k]
                    == processes.exited[k]
            &&& after.graveyard == processes.graveyard
        }),
{
}

/// A clean-up leaves the active processes alone, lets go of those that were buried, and
/// buries those that have exited since.
pub proof fn law_cleaned<S>(processes: Processes<S>)
    ensures
        processes.cleaned().active == processes.active,
        processes.cleaned().exited.len() == 0,
        processes.cleaned().graveyard == processes.exited,
{
}

/// A listing has two steps for each process: the line with its number, its identifier and
/// its name, then its address space.
pub proof fn law_dump_steps<S>(active: Seq<Arc<Process<S>>>, count: int, i: int)
    requires
        0 <= i < count <= active.len(),
    ensures
        ({
            let steps = dump_of(active, count);
            &&& steps.len() == 2 * count
            &&& steps[2 * i] == Dumped::<S>::Line(
                "Process #"@ + decimal(i as nat) + ": PID="@ + id_text(active[i].id) + ", name="@
                    + active[i].name@,
            )
            &&& steps[2 * i + 1] == Dumped::Space(active[i])
        }),
    decreases count,
{
    if i < count - 1 {
        law_dump_steps(active, count - 1, i);
    } else {
        lemma_dump_len(active, count - 1);
    }
}

proof fn lemma_dump_len<S>(active: Seq<Arc<Process<S>>>, count: int)
    requires
        0 <= count,
    ensures
        dump_of(active, count).len() == 2 * count,
    decreases count,
{
    if count > 0 {
        lemma_dump_len(active, count - 1);
    }
}

/// A range of whole frames has as many as frames of 4096 bytes fit, and none if it ends
/// where it begins or before.
pub proof fn law_frames_in(start: u64, end: u64)
    ensures
        start < end ==> 4096 * frames_in(FrameRange { start, end }) <= end - start,
        start < end ==> 4096 * (frames_in(FrameRange { start, end }) + 1) > end - start,
        start >= end ==> frames_in(FrameRange { start, end }) == 0,
{
}

} // verus!
