//! Split virtqueues: descriptor tables, free lists and rings.
//!
//! A queue is kept as plain values: the driver's own copy of the descriptor
//! table, the image that the device is to see, and the available ring. The used
//! ring is the device's; what was read from it comes in as an argument. Buffers
//! are known by their physical address and length.

use vstd::prelude::*;
use vstd::string::*;

use crate::text::{decimal, push_decimal};

verus! {

/// Bytes of a memory page.
pub const PAGE_SIZE: usize = 4096;

/// Bytes of a descriptor.
pub const DESCRIPTOR_BYTES: usize = 16;

/// Bytes of an element of the used ring.
pub const USED_ELEMENT_BYTES: usize = 8;

/// The number of pages that hold `size` bytes.
pub fn pages(size: usize) -> (r: usize)
    ensures
        r == (size + PAGE_SIZE - 1) / PAGE_SIZE as int,
        r * PAGE_SIZE >= size,
        r > 0 ==> (r - 1) * PAGE_SIZE < size,
{
    let whole: usize = size / PAGE_SIZE;
    if size % PAGE_SIZE == 0 {
        whole
    } else {
        whole + 1
    }
}

/// The number is a power of two.
pub open spec fn is_power_of_two(n: u16) -> bool {
    n > 0 && n & ((n - 1) as u16) == 0
}

/// Flags of a descriptor.
#[derive(Copy, Clone, Debug, PartialEq, Eq, Structural)]
pub struct DescriptorFlags {
    /// The chain goes on with another descriptor.
    pub next: bool,
    /// The device may write to the buffer.
    pub write: bool,
}

impl DescriptorFlags {
    /// The flags as the device reads them: bit 0 is `next`, bit 1 is `write`.
    pub fn bits(&self) -> (r: u16)
        ensures
            r == (if self.next {
                1int
            } else {
                0
            }) + (if self.write {
                2int
            } else {
                0
            }),
    {
        let next: u16 = if self.next { 1 } else { 0 };
        let write: u16 = if self.write { 2 } else { 0 };
        next + write
    }

    /// No flag set.
    pub fn empty() -> (r: DescriptorFlags)
        ensures
            r == (DescriptorFlags { next: false, write: false }),
    {
        DescriptorFlags { next: false, write: false }
    }
}

/// A buffer in memory that the device can reach.
#[derive(Copy, Clone, Debug, PartialEq, Eq, Structural)]
pub struct Buffer {
    pub address: u64,
    pub length: u32,
}

/// A descriptor of a buffer.
#[derive(Copy, Clone, Debug, PartialEq, Eq, Structural)]
pub struct Descriptor {
    pub address: u64,
    pub length: u32,
    pub flags: DescriptorFlags,
    pub next: u16,
}

impl Descriptor {
    /// Describe a buffer. The link to another descriptor stays.
    pub fn set_buffer(&mut self, buffer: Buffer, flags: DescriptorFlags)
        ensures
            *final(self) == (Descriptor {
                address: buffer.address,
                length: buffer.length,
                flags,
                next: old(self).next,
            }),
    {
        self.address = buffer.address;
        self.length = buffer.length;
        self.flags = flags;
    }

    /// The descriptor that follows in the chain, if any.
    pub fn next(&self) -> (r: Option<u16>)
        ensures
            r == if self.flags.next {
                Some(self.next)
            } else {
                None
            },
    {
        if self.flags.next {
            Some(self.next)
        } else {
            None
        }
    }

    /// Describe no buffer. Flags and link stay.
    pub fn unset_buffer(&mut self)
        ensures
            *final(self) == (Descriptor { address: 0, length: 0, ..*old(self) }),
    {
        self.address = 0;
        self.length = 0;
    }
}

/// The ring on which the driver offers chains.
pub struct AvailableRing<const SIZE: usize> {
    pub flags: u16,
    pub index: u16,
    pub ring: Vec<u16>,
    pub used_event: u16,
}

/// An element of the used ring: the head of a chain and the bytes written to it.
#[derive(Copy, Clone, Debug, PartialEq, Eq, Structural)]
pub struct UsedRingElement {
    pub id: u32,
    pub length: u32,
}

/// The ring on which the device gives chains back, as it was read.
pub struct UsedRing<const SIZE: usize> {
    pub flags: u16,
    pub index: u16,
    pub ring: Vec<UsedRingElement>,
    pub avail_event: u16,
}

/// Why a queue operation failed.
#[derive(Copy, Clone, Debug, PartialEq, Eq, Structural)]
pub enum QueueError {
    /// The device uses the queue already.
    InUse,
    /// The device's queue is smaller than asked for.
    Unsupported,
    /// No buffer was given.
    NoBuffers,
    /// There are too few free descriptors.
    Insufficient { need: usize, have: usize },
    /// The device has given nothing back.
    Empty,
    /// The device has not answered yet.
    NoResponse,
    /// The device gave another chain back than the one expected.
    Mismatched { expected: u16, got: u16 },
}

impl QueueError {
    /// The message that goes with an error.
    pub open spec fn text(self) -> Seq<char> {
        match self {
            QueueError::InUse => "Queue is already in use"@,
            QueueError::Unsupported => "Queue size is not supported"@,
            QueueError::NoBuffers => "No buffers provided"@,
            QueueError::Insufficient { need, have } => "Insufficient descriptors: need "@ + decimal(
                need as nat,
            ) + ", have "@ + decimal(have as nat),
            QueueError::Empty => "Used ring is empty"@,
            QueueError::NoResponse => "No response yet"@,
            QueueError::Mismatched { expected, got } => "Mismatched token: expected "@ + decimal(
                expected as nat,
            ) + ", got "@ + decimal(got as nat),
        }
    }

    /// The message that goes with an error.
    pub fn message(&self) -> (r: String)
        ensures
            r@ == self.text(),
    {
        match self {
            QueueError::InUse => "Queue is already in use".to_owned(),
            QueueError::Unsupported => "Queue size is not supported".to_owned(),
            QueueError::NoBuffers => "No buffers provided".to_owned(),
            QueueError::Insufficient { need, have } => {
                let mut s = "Insufficient descriptors: need ".to_owned();
                push_decimal(&mut s, *need as u64);
                s.push_str(", have ");
                push_decimal(&mut s, *have as u64);
                s
            },
            QueueError::Empty => "Used ring is empty".to_owned(),
            QueueError::NoResponse => "No response yet".to_owned(),
            QueueError::Mismatched { expected, got } => {
                let mut s = "Mismatched token: expected ".to_owned();
                push_decimal(&mut s, *expected as u64);
                s.push_str(", got ");
                push_decimal(&mut s, *got as u64);
                s
            },
        }
    }
}

/// The bytes of the descriptor table, the available ring and the used ring of a
/// queue.
pub fn get_queue_sizes(queue_size: u16) -> (r: (usize, usize, usize))
    requires
        is_power_of_two(queue_size),
    ensures
        r.0 == queue_size * DESCRIPTOR_BYTES,
        r.1 == (3 + queue_size) * 2,
        r.2 == 6 + queue_size * USED_ELEMENT_BYTES,
{
    let size: usize = queue_size as usize;
    let desc_size: usize = size * DESCRIPTOR_BYTES;
    let avail_size: usize = (3 + size) * 2;
    let used_size: usize = 3 * 2 + size * USED_ELEMENT_BYTES;
    (desc_size, avail_size, used_size)
}

/// How much memory a queue takes and where its parts lie: the available ring
/// follows the descriptor table, the used ring is on pages of its own.
#[derive(Copy, Clone, Debug, PartialEq, Eq, Structural)]
pub struct VirtQueueLayout {
    /// Pages for the descriptor table and the available ring.
    pub desc_avail_pages: usize,
    /// Pages for the used ring.
    pub used_pages: usize,
    /// Offset of the available ring behind the start of the descriptor table.
    pub avail_offset: usize,
}

impl VirtQueueLayout {
    /// The layout for a queue of this size.
    pub fn allocate_layout(queue_size: u16) -> (r: VirtQueueLayout)
        requires
            is_power_of_two(queue_size),
        ensures
            r.avail_offset == queue_size * DESCRIPTOR_BYTES,
            r.desc_avail_pages == (queue_size * DESCRIPTOR_BYTES + (3 + queue_size) * 2 + PAGE_SIZE
                - 1) / PAGE_SIZE as int,
            r.used_pages == (6 + queue_size * USED_ELEMENT_BYTES + PAGE_SIZE - 1) / PAGE_SIZE as int,
    {
        let (desc_size, avail_size, used_size) = get_queue_sizes(queue_size);
        VirtQueueLayout {
            desc_avail_pages: pages(desc_size + avail_size),
            used_pages: pages(used_size),
            avail_offset: desc_size,
        }
    }

    /// The addresses to tell the device, given where the memory was allocated:
    /// descriptor table, available ring, used ring.
    pub fn addresses(&self, desc_avail: u64, used: u64) -> (r: (u64, u64, u64))
        requires
            desc_avail + self.avail_offset <= u64::MAX,
        ensures
            r.0 == desc_avail,
            r.1 == desc_avail + self.avail_offset,
            r.2 == used,
    {
        (desc_avail, desc_avail + self.avail_offset as u64, used)
    }
}

/// The descriptor reached from `head` over `n` links.
pub open spec fn follow(table: Seq<Descriptor>, head: u16, n: nat) -> u16
    decreases n,
{
    if n == 0 {
        head
    } else {
        table[follow(table, head, (n - 1) as nat) as int].next
    }
}

/// The `n` descriptors that are linked from `head` on.
pub open spec fn walk(table: Seq<Descriptor>, head: u16, n: nat) -> Seq<u16> {
    Seq::new(n, |i: int| follow(table, head, i as nat))
}

/// All of them are descriptors of a table of this size, each one once.
pub open spec fn is_list(nodes: Seq<u16>, size: nat) -> bool {
    &&& nodes.no_duplicates()
    &&& forall|i: int| 0 <= i < nodes.len() ==> (#[trigger] nodes[i]) < size
}

/// No descriptor is in both lists.
pub open spec fn apart(a: Seq<u16>, b: Seq<u16>) -> bool {
    forall|i: int, j: int| 0 <= i < a.len() && 0 <= j < b.len() ==> a[i] != b[j]
}

/// The descriptors of a chain carry the flag that says it goes on, except the
/// last.
pub open spec fn is_flagged(table: Seq<Descriptor>, nodes: Seq<u16>) -> bool {
    forall|i: int|
        0 <= i < nodes.len() ==> (table[#[trigger] nodes[i] as int].flags.next <==> i + 1
            < nodes.len())
}

/// The list is linked in its order.
pub open spec fn is_linked(table: Seq<Descriptor>, nodes: Seq<u16>) -> bool {
    forall|i: int, j: int|
        0 <= i && j == i + 1 && j < nodes.len() ==> table[#[trigger] nodes[i] as int].next
            == #[trigger] nodes[j]
}

/// A list that is linked in its order is what a walk from its head finds.
proof fn lemma_walk_linked(table: Seq<Descriptor>, nodes: Seq<u16>, head: u16)
    requires
        is_linked(table, nodes),
        nodes.len() > 0 ==> nodes[0] == head,
    ensures
        walk(table, head, nodes.len()) == nodes,
{
    assert forall|i: int| 0 <= i < nodes.len() implies follow(table, head, i as nat) == nodes[i] by {
        lemma_follow_linked(table, nodes, head, i);
    }
    assert(walk(table, head, nodes.len()) =~= nodes);
}

proof fn lemma_follow_linked(table: Seq<Descriptor>, nodes: Seq<u16>, head: u16, i: int)
    requires
        is_linked(table, nodes),
        0 <= i < nodes.len(),
        nodes[0] == head,
    ensures
        follow(table, head, i as nat) == nodes[i],
    decreases i,
{
    if i > 0 {
        lemma_follow_linked(table, nodes, head, i - 1);
        assert(table[nodes[i - 1] as int].next == nodes[i]);
    }
}

/// A walk is linked in its order.
proof fn lemma_walk_is_linked(table: Seq<Descriptor>, head: u16, n: nat)
    ensures
        is_linked(table, walk(table, head, n)),
{
    let nodes = walk(table, head, n);
    assert forall|i: int, j: int| 0 <= i && j == i + 1 && j < nodes.len() implies table[
    #[trigger] nodes[i] as int].next == #[trigger] nodes[j] by {
        assert(follow(table, head, (i + 1) as nat) == table[follow(
            table,
            head,
            i as nat,
        ) as int].next);
    }
}

/// A list of different descriptors of a table is no longer than the table.
proof fn lemma_list_bound(nodes: Seq<u16>, size: nat)
    requires
        is_list(nodes, size),
    ensures
        nodes.len() <= size,
    decreases size,
{
    if size == 0 {
        if nodes.len() > 0 {
            assert(nodes[0] < 0);
        }
    } else {
        let last = (size - 1) as u16;
        if nodes.contains(last) && size <= 65536 {
            let k = nodes.index_of(last);
            let rest = nodes.remove(k);
            assert forall|i: int| 0 <= i < rest.len() implies (#[trigger] rest[i]) < size - 1 by {
                let j = if i < k {
                    i
                } else {
                    i + 1
                };
                assert(rest[i] == nodes[j]);
                assert(nodes[j] != last);
            }
            assert(rest.no_duplicates()) by {
                assert forall|i: int, j: int|
                    0 <= i < rest.len() && 0 <= j < rest.len() && i != j implies rest[i]
                    != rest[j] by {
                    let a = if i < k {
                        i
                    } else {
                        i + 1
                    };
                    let b = if j < k {
                        j
                    } else {
                        j + 1
                    };
                    assert(rest[i] == nodes[a] && rest[j] == nodes[b]);
                }
            }
            lemma_list_bound(rest, (size - 1) as nat);
        } else {
            assert forall|i: int| 0 <= i < nodes.len() implies (#[trigger] nodes[i]) < size - 1 by {
                assert(nodes.contains(nodes[i]));
            }
            lemma_list_bound(nodes, (size - 1) as nat);
        }
    }
}

/// Two lists that are apart make one list.
proof fn lemma_list_concat(a: Seq<u16>, b: Seq<u16>, size: nat)
    requires
        is_list(a, size),
        is_list(b, size),
        apart(a, b),
    ensures
        is_list(a + b, size),
        a.len() + b.len() <= size,
{
    let c = a + b;
    assert forall|i: int, j: int| 0 <= i < c.len() && 0 <= j < c.len() && i != j implies c[i]
        != c[j] by {
        if i < a.len() && j >= a.len() {
            assert(a[i] != b[j - a.len()]);
        }
        if j < a.len() && i >= a.len() {
            assert(a[j] != b[i - a.len()]);
        }
    }
    assert forall|i: int| 0 <= i < c.len() implies (#[trigger] c[i]) < size by {
        if i < a.len() {
            assert(c[i] == a[i]);
        } else {
            assert(c[i] == b[i - a.len()]);
        }
    }
    lemma_list_bound(c, size);
}

/// A queue as a mathematical value.
#[verifier::ext_equal]
pub struct Queue {
    /// The driver's copy of the descriptor table.
    pub table: Seq<Descriptor>,
    /// The descriptor table as the device sees it.
    pub shared: Seq<Descriptor>,
    /// The slots of the available ring.
    pub offered: Seq<u16>,
    /// The number of chains offered so far, as the device sees it.
    pub offered_index: u16,
    /// The flags of the available ring. Bit 0 asks the device not to interrupt.
    pub offered_flags: u16,
    /// Up to where the driver has asked not to be notified.
    pub used_event: u16,
    pub used_count: int,
    pub free_head: u16,
    pub available_index: u16,
    pub last_used_index: u16,
    pub event_index_enabled: bool,
    pub queue_index: u16,
}

/// A descriptor for the `i`-th of the buffers, the first `inputs` of which are for
/// the device to read and the others to write.
pub open spec fn buffer_descriptor(
    old: Descriptor,
    buffers: Seq<Buffer>,
    inputs: nat,
    i: int,
) -> Descriptor {
    Descriptor {
        address: buffers[i].address,
        length: buffers[i].length,
        flags: DescriptorFlags { next: i + 1 < buffers.len(), write: i >= inputs },
        next: old.next,
    }
}

impl Queue {
    /// The number of descriptors.
    pub open spec fn size(self) -> nat {
        self.table.len()
    }

    /// The free descriptors in the order in which they are taken.
    pub open spec fn free(self) -> Seq<u16> {
        walk(self.table, self.free_head, (self.size() - self.used_count) as nat)
    }

    /// The tables and the ring have one size, a power of two, and the free
    /// descriptors are different ones.
    pub open spec fn wf(self) -> bool {
        &&& self.size() <= 65535
        &&& is_power_of_two(self.size() as u16)
        &&& self.shared.len() == self.size()
        &&& self.offered.len() == self.size()
        &&& 0 <= self.used_count <= self.size()
        &&& is_list(self.free(), self.size())
    }

    /// The chain of `n` descriptors that begins at `head`.
    pub open spec fn chain(self, head: u16, n: nat) -> Seq<u16> {
        walk(self.table, head, n)
    }

    /// A chain of exactly `n` descriptors, none of them free, begins at `head`.
    pub open spec fn has_chain(self, head: u16, n: nat) -> bool {
        &&& n > 0
        &&& is_list(self.chain(head, n), self.size())
        &&& is_flagged(self.table, self.chain(head, n))
        &&& apart(self.chain(head, n), self.free())
    }

    /// A new queue: every descriptor is free, in ascending order.
    pub open spec fn fresh(size: nat, queue_index: u16, event_index_enabled: bool) -> Queue {
        let table = Seq::new(
            size,
            |i: int|
                Descriptor {
                    address: 0,
                    length: 0,
                    flags: DescriptorFlags { next: false, write: false },
                    next: if i + 1 < size {
                        (i + 1) as u16
                    } else {
                        0
                    },
                },
        );
        Queue {
            table,
            shared: table,
            offered: Seq::new(size, |i: int| 0u16),
            offered_index: 0,
            offered_flags: 0,
            used_event: 0,
            used_count: 0,
            free_head: 0,
            available_index: 0,
            last_used_index: 0,
            event_index_enabled,
            queue_index,
        }
    }

    /// `after` differs from this queue by the descriptors of `nodes` alone, which
    /// describe `buffers`, in both tables.
    pub open spec fn describes(
        self,
        after: Queue,
        nodes: Seq<u16>,
        buffers: Seq<Buffer>,
        inputs: nat,
    ) -> bool {
        &&& after.table.len() == self.table.len()
        &&& after.shared.len() == self.shared.len()
        &&& forall|i: int|
            0 <= i < nodes.len() ==> after.table[#[trigger] nodes[i] as int] == buffer_descriptor(
                self.table[nodes[i] as int],
                buffers,
                inputs,
                i,
            ) && after.shared[nodes[i] as int] == after.table[nodes[i] as int]
        &&& forall|k: int|
            0 <= k < self.table.len() && !nodes.contains(k as u16) ==> #[trigger] after.table[k]
                == self.table[k] && after.shared[k] == self.shared[k]
    }

    /// `after` is the queue with a chain of free descriptors taken for `buffers`
    /// and offered to the device.
    pub open spec fn offers(self, after: Queue, buffers: Seq<Buffer>, inputs: nat) -> bool {
        let n = buffers.len();
        let slot = self.available_index as int % self.size() as int;
        &&& self.describes(after, self.free().take(n as int), buffers, inputs)
        &&& after.free() == self.free().skip(n as int)
        &&& after.chain(self.free_head, n) == self.free().take(n as int)
        &&& after.has_chain(self.free_head, n)
        &&& after.used_count == self.used_count + n
        &&& after.offered == self.offered.update(slot, self.free_head)
        &&& after.available_index == self.available_index.wrapping_add(1)
        &&& after.offered_index == after.available_index
        &&& after.offered_flags == self.offered_flags
        &&& after.used_event == self.used_event
        &&& after.last_used_index == self.last_used_index
        &&& after.event_index_enabled == self.event_index_enabled
        &&& after.queue_index == self.queue_index
    }

    /// `after` is the queue with the chain of `n` descriptors at `head` given back:
    /// it describes no buffers and precedes the descriptors that were free before.
    pub open spec fn recycles(self, after: Queue, head: u16, n: nat) -> bool {
        let nodes = self.chain(head, n);
        &&& after.table.len() == self.table.len()
        &&& after.shared.len() == self.shared.len()
        &&& forall|i: int|
            0 <= i < n ==> after.table[#[trigger] nodes[i] as int] == (Descriptor {
                address: 0,
                length: 0,
                flags: self.table[nodes[i] as int].flags,
                next: if i + 1 < n {
                    self.table[nodes[i] as int].next
                } else {
                    self.free_head
                },
            }) && after.shared[nodes[i] as int] == after.table[nodes[i] as int]
        &&& forall|k: int|
            0 <= k < self.table.len() && !nodes.contains(k as u16) ==> #[trigger] after.table[k]
                == self.table[k] && after.shared[k] == self.shared[k]
        &&& after.free() == nodes + self.free()
        &&& after.used_count == self.used_count - n
        &&& after.offered == self.offered
        &&& after.offered_index == self.offered_index
        &&& after.offered_flags == self.offered_flags
        &&& after.available_index == self.available_index
        &&& after.event_index_enabled == self.event_index_enabled
        &&& after.queue_index == self.queue_index
    }
}

/// Walks that visit the same links find the same descriptors.
proof fn lemma_walk_same(a: Seq<Descriptor>, b: Seq<Descriptor>, head: u16, n: nat)
    requires
        a.len() == b.len(),
        is_list(walk(a, head, n), a.len()),
        forall|i: int|
            0 <= i < n - 1 ==> a[(#[trigger] walk(a, head, n)[i]) as int].next == b[walk(
                a,
                head,
                n,
            )[i] as int].next,
    ensures
        walk(b, head, n) == walk(a, head, n),
{
    let nodes = walk(a, head, n);
    lemma_walk_is_linked(a, head, n);
    assert(is_linked(b, nodes)) by {
        assert forall|i: int, j: int| 0 <= i && j == i + 1 && j < nodes.len() implies b[
        #[trigger] nodes[i] as int].next == #[trigger] nodes[j] by {
            assert(a[nodes[i] as int].next == nodes[j]);
        }
    }
    lemma_walk_linked(b, nodes, head);
}

/// The main structure of a queue.
pub struct VirtioQueue<const SIZE: usize> {
    pub descriptors: Vec<Descriptor>,
    pub available: AvailableRing<SIZE>,
    pub descriptor_backup: Vec<Descriptor>,
    pub queue_index: u16,
    pub used_count: u16,
    pub free_descriptor_head: u16,
    pub available_index: u16,
    pub last_used_ring_index: u16,
    pub event_index_enabled: bool,
}

impl<const SIZE: usize> View for VirtioQueue<SIZE> {
    type V = Queue;

    open spec fn view(&self) -> Queue {
        Queue {
            table: self.descriptor_backup@,
            shared: self.descriptors@,
            offered: self.available.ring@,
            offered_index: self.available.index,
            offered_flags: self.available.flags,
            used_event: self.available.used_event,
            used_count: self.used_count as int,
            free_head: self.free_descriptor_head,
            available_index: self.available_index,
            last_used_index: self.last_used_ring_index,
            event_index_enabled: self.event_index_enabled,
            queue_index: self.queue_index,
        }
    }
}

/// The slot of a ring for a running index.
fn ring_slot(index: u16, size: u16) -> (r: usize)
    requires
        is_power_of_two(size),
    ensures
        r == index as int % size as int,
{
    let mask: u16 = size - 1;
    proof {
        assert(index & mask == index % size) by (bit_vector)
            requires
                size > 0,
                mask == size - 1,
                size & mask == 0,
        ;
    }
    (index & mask) as usize
}

impl<const SIZE: usize> VirtioQueue<SIZE> {
    /// The queue has its size, and see `Queue::wf`.
    pub open spec fn wf(&self) -> bool {
        self@.size() == SIZE && self@.wf()
    }

    /// A queue for the device, given whether the device says that the queue is in
    /// use and how large it is there.
    pub fn new(
        queue_in_use: bool,
        device_queue_size: u32,
        queue_index: u16,
        event_index_enabled: bool,
    ) -> (r: Result<VirtioQueue<SIZE>, QueueError>)
        requires
            SIZE <= 65535,
            !queue_in_use && device_queue_size >= SIZE ==> is_power_of_two(SIZE as u16),
        ensures
            queue_in_use ==> r == Err::<VirtioQueue<SIZE>, QueueError>(QueueError::InUse),
            !queue_in_use && device_queue_size < SIZE ==> r == Err::<
                VirtioQueue<SIZE>,
                QueueError,
            >(QueueError::Unsupported),
            !queue_in_use && device_queue_size >= SIZE ==> {
                &&& r matches Ok(queue)
                &&& queue.wf()
                &&& queue@ == Queue::fresh(SIZE as nat, queue_index, event_index_enabled)
                &&& queue.available.flags == 0
                &&& queue@.free() == Seq::new(SIZE as nat, |i: int| i as u16)
            },
    {
        if queue_in_use {
            return Err(QueueError::InUse);
        }
        if device_queue_size < SIZE as u32 {
            return Err(QueueError::Unsupported);
        }
        let queue = VirtioQueue {
            descriptors: Self::initialize_descriptor_freelist(),
            available: AvailableRing { flags: 0, index: 0, ring: vec![0u16; SIZE], used_event: 0 },
            descriptor_backup: Self::initialize_descriptor_freelist(),
            queue_index,
            used_count: 0,
            free_descriptor_head: 0,
            available_index: 0,
            last_used_ring_index: 0,
            event_index_enabled,
        };
        proof {
            assert(queue@ =~= Queue::fresh(SIZE as nat, queue_index, event_index_enabled));
            lemma_fresh(queue@);
        }
        Ok(queue)
    }

    /// A table in which each descriptor is linked to the one behind it.
    fn initialize_descriptor_freelist() -> (r: Vec<Descriptor>)
        requires
            0 < SIZE <= 65535,
        ensures
            r@ == Queue::fresh(SIZE as nat, 0, false).table,
    {
        let mut table: Vec<Descriptor> = Vec::new();
        for i in 0..SIZE
            invariant
                SIZE <= 65535,
                table@ == Queue::fresh(SIZE as nat, 0, false).table.take(i as int),
        {
            let next: u16 = if i + 1 < SIZE { (i + 1) as u16 } else { 0 };
            table.push(Descriptor { address: 0, length: 0, flags: DescriptorFlags::empty(), next });
            proof {
                assert(table@ =~= Queue::fresh(SIZE as nat, 0, false).table.take(i + 1));
            }
        }
        proof {
            assert(table@ =~= Queue::fresh(SIZE as nat, 0, false).table);
        }
        table
    }
}

/// In a new queue the free descriptors are all of them in ascending order.
proof fn lemma_fresh(q: Queue)
    requires
        q.table == Queue::fresh(q.size(), 0, false).table,
        0 < q.size() <= 65535,
        q.used_count == 0,
        q.free_head == 0,
    ensures
        q.free() == Seq::new(q.size(), |i: int| i as u16),
        is_list(q.free(), q.size()),
{
    let nodes = Seq::new(q.size(), |i: int| i as u16);
    assert(is_linked(q.table, nodes));
    lemma_walk_linked(q.table, nodes, 0);
}

/// A chain that is in use stays as it is when descriptors outside of it change,
/// as long as it is apart from what is free afterwards.
proof fn lemma_chain_kept(before: Queue, after: Queue, changed: Seq<u16>, head: u16, n: nat)
    requires
        before.table.len() == after.table.len(),
        before.size() <= 65535,
        before.has_chain(head, n),
        apart(before.chain(head, n), changed),
        apart(before.chain(head, n), after.free()),
        forall|k: int|
            0 <= k < before.table.len() && !changed.contains(k as u16) ==> #[trigger] after.table[k]
                == before.table[k],
    ensures
        after.has_chain(head, n),
        after.chain(head, n) == before.chain(head, n),
{
    let nodes = before.chain(head, n);
    assert forall|i: int| 0 <= i < n implies after.table[(#[trigger] nodes[i]) as int]
        == before.table[nodes[i] as int] by {
        assert(nodes[i] < before.size());
        assert(!changed.contains(nodes[i])) by {
            if changed.contains(nodes[i]) {
                let j = choose|j: int| 0 <= j < changed.len() && changed[j] == nodes[i];
                assert(nodes[i] != changed[j]);
            }
        }
    }
    lemma_walk_same(before.table, after.table, head, n);
}

/// The buffers all have bytes.
pub open spec fn all_filled(buffers: Seq<Buffer>) -> bool {
    forall|i: int| 0 <= i < buffers.len() ==> (#[trigger] buffers[i]).length > 0
}

impl<const SIZE: usize> VirtioQueue<SIZE> {
    /// Offer buffers to the device: `inputs` for it to read, `outputs` to write.
    /// Returns the head of the chain that was taken for them.
    pub fn add(&mut self, inputs: &Vec<Buffer>, outputs: &Vec<Buffer>) -> (r: Result<
        u16,
        QueueError,
    >)
        requires
            old(self).wf(),
            inputs@.len() + outputs@.len() <= usize::MAX,
            inputs@.len() + outputs@.len() <= old(self)@.free().len() ==> all_filled(
                inputs@ + outputs@,
            ),
        ensures
            final(self).wf(),
            final(self).available.flags == old(self).available.flags,
            ({
                let total = inputs@.len() + outputs@.len();
                let free = old(self)@.free();
                if total == 0 {
                    r == Err::<u16, QueueError>(QueueError::NoBuffers) && final(self)@ == old(
                        self,
                    )@
                } else if total > free.len() {
                    &&& r == Err::<u16, QueueError>(
                        QueueError::Insufficient { need: total as usize, have: free.len() as usize },
                    )
                    &&& final(self)@ == old(self)@
                } else {
                    &&& r == Ok::<u16, QueueError>(free[0])
                    &&& old(self)@.offers(final(self)@, inputs@ + outputs@, inputs@.len())
                    &&& forall|head: u16, n: nat| #[trigger]
                        old(self)@.has_chain(head, n) ==> final(self)@.has_chain(head, n)
                            && final(self)@.chain(head, n) == old(self)@.chain(head, n)
                }
            }),
    {
        let total: usize = inputs.len() + outputs.len();
        if total == 0 {
            return Err(QueueError::NoBuffers);
        }
        let have: usize = SIZE - self.used_count as usize;
        if total > have {
            return Err(QueueError::Insufficient { need: total, have });
        }
        let ghost before = self@;
        let ghost buffers = inputs@ + outputs@;
        let head: u16 = self.add_buffers_direct(inputs, outputs);
        let slot: usize = ring_slot(self.available_index, SIZE as u16);
        self.available.ring[slot] = head;
        self.available_index = self.available_index.wrapping_add(1);
        self.available.index = self.available_index;
        proof {
            lemma_taken(before, self@, buffers, inputs@.len());
            assert(before.free()[0] == head);
            assert forall|h: u16, n: nat| #[trigger] before.has_chain(h, n) implies self@.has_chain(
                h,
                n,
            ) && self@.chain(h, n) == before.chain(h, n) by {
                let taken = before.free().take(total as int);
                let left = before.free().skip(total as int);
                let nodes = before.chain(h, n);
                assert(apart(nodes, taken)) by {
                    assert forall|i: int, j: int|
                        0 <= i < nodes.len() && 0 <= j < taken.len() implies nodes[i] != taken[j] by {
                        assert(taken[j] == before.free()[j]);
                    }
                }
                assert(apart(nodes, left)) by {
                    assert forall|i: int, j: int|
                        0 <= i < nodes.len() && 0 <= j < left.len() implies nodes[i] != left[j] by {
                        assert(left[j] == before.free()[j + total]);
                    }
                }
                lemma_chain_kept(before, self@, taken, h, n);
            }
        }
        Ok(head)
    }

    /// Take the first free descriptor for a buffer and show it to the device.
    fn assign_buffer(&mut self, buffer: Buffer, flags: DescriptorFlags)
        requires
            old(self)@.shared.len() == old(self)@.table.len(),
            old(self)@.free_head < old(self)@.table.len(),
        ensures
            ({
                let q = old(self)@;
                let at = q.free_head as int;
                let desc = Descriptor {
                    address: buffer.address,
                    length: buffer.length,
                    flags,
                    next: q.table[at].next,
                };
                final(self)@ == (Queue {
                    table: q.table.update(at, desc),
                    shared: q.shared.update(at, desc),
                    free_head: q.table[at].next,
                    ..q
                })
            }),
    {
        let index: u16 = self.free_descriptor_head;
        let mut desc = self.descriptor_backup[index as usize];
        desc.set_buffer(buffer, flags);
        self.descriptor_backup[index as usize] = desc;
        self.free_descriptor_head = desc.next;
        self.write_descriptor(index);
    }

    /// Show a descriptor to the device.
    fn write_descriptor(&mut self, index: u16)
        requires
            old(self)@.shared.len() == old(self)@.table.len(),
            index < old(self)@.table.len(),
        ensures
            final(self)@ == (Queue {
                shared: old(self)@.shared.update(index as int, old(self)@.table[index as int]),
                ..old(self)@
            }),
    {
        let desc = self.descriptor_backup[index as usize];
        self.descriptors[index as usize] = desc;
    }

    /// Take free descriptors for the buffers and chain them.
    fn add_buffers_direct(&mut self, inputs: &Vec<Buffer>, outputs: &Vec<Buffer>) -> (head: u16)
        requires
            old(self).wf(),
            0 < inputs@.len() + outputs@.len() <= old(self)@.free().len(),
        ensures
            head == old(self)@.free_head,
            ({
                let q = old(self)@;
                let after = final(self)@;
                let buffers = inputs@ + outputs@;
                &&& q.describes(
                    after,
                    q.free().take(buffers.len() as int),
                    buffers,
                    inputs@.len(),
                )
                &&& after.free_head == follow(q.table, q.free_head, buffers.len())
                &&& after == (Queue {
                    table: after.table,
                    shared: after.shared,
                    free_head: after.free_head,
                    used_count: q.used_count + buffers.len(),
                    ..q
                })
            }),
    {
        let ghost q = self@;
        let ghost free = q.free();
        let ghost buffers = inputs@ + outputs@;
        let ghost ins = inputs@.len();
        let total: usize = inputs.len() + outputs.len();
        let head: u16 = self.free_descriptor_head;
        let mut last: u16 = head;
        let mut k: usize = 0;
        while k < total
            invariant
                k <= total,
                total == buffers.len(),
                buffers == inputs@ + outputs@,
                ins == inputs@.len(),
                q.wf(),
                free == q.free(),
                total <= free.len(),
                self@.table.len() == q.table.len(),
                self@.shared.len() == q.table.len(),
                self@ == (Queue {
                    table: self@.table,
                    shared: self@.shared,
                    free_head: self@.free_head,
                    ..q
                }),
                self@.free_head == follow(q.table, q.free_head, k as nat),
                k > 0 ==> last == free[k - 1],
                forall|i: int|
                    0 <= i < k ==> self@.table[#[trigger] free[i] as int] == (Descriptor {
                        flags: DescriptorFlags { next: true, write: i >= ins },
                        ..buffer_descriptor(q.table[free[i] as int], buffers, ins, i)
                    }) && self@.shared[free[i] as int] == self@.table[free[i] as int],
                forall|j: int|
                    0 <= j < q.table.len() && !free.take(k as int).contains(j as u16)
                        ==> #[trigger] self@.table[j] == q.table[j] && self@.shared[j]
                        == q.shared[j],
            decreases total - k,
        {
            let ghost mid = self@;
            let ghost at = free[k as int];
            proof {
                assert(at == follow(q.table, q.free_head, k as nat));
                assert(free[k as int] < q.size());
                assert(!free.take(k as int).contains(at)) by {
                    if free.take(k as int).contains(at) {
                        let j = choose|j: int|
                            0 <= j < free.take(k as int).len() && free.take(k as int)[j] == at;
                        assert(free[j] == free[k as int]);
                    }
                }
                assert(mid.table[at as int] == q.table[at as int]);
            }
            last = self.free_descriptor_head;
            if k < inputs.len() {
                self.assign_buffer(inputs[k], DescriptorFlags { next: true, write: false });
            } else {
                self.assign_buffer(
                    outputs[k - inputs.len()],
                    DescriptorFlags { next: true, write: true },
                );
            }
            proof {
                assert forall|i: int| 0 <= i < k + 1 implies self@.table[
                #[trigger] free[i] as int] == (Descriptor {
                    flags: DescriptorFlags { next: true, write: i >= ins },
                    ..buffer_descriptor(q.table[free[i] as int], buffers, ins, i)
                }) && self@.shared[free[i] as int] == self@.table[free[i] as int] by {
                    if i < k {
                        assert(free[i] != free[k as int]);
                        assert(free[i] < q.size());
                    }
                }
                assert forall|j: int|
                    0 <= j < q.table.len() && !free.take(k + 1).contains(
                        j as u16,
                    ) implies #[trigger] self@.table[j] == q.table[j] && self@.shared[j]
                    == q.shared[j] by {
                    assert(free.take(k + 1)[k as int] == at);
                    assert(j != at as int);
                    assert(!free.take(k as int).contains(j as u16)) by {
                        if free.take(k as int).contains(j as u16) {
                            let i = choose|i: int|
                                0 <= i < free.take(k as int).len() && free.take(k as int)[i]
                                    == j as u16;
                            assert(free.take(k + 1)[i] == j as u16);
                        }
                    }
                    assert(mid.table[j] == q.table[j]);
                }
            }
            k = k + 1;
        }
        let ghost mid = self@;
        proof {
            assert(last == free[total - 1]);
            assert(free[total - 1] < q.size());
        }
        // The chain ends with its last descriptor.
        self.descriptor_backup[last as usize].flags.next = false;
        self.write_descriptor(last);
        self.used_count = self.used_count + total as u16;
        proof {
            let nodes = free.take(total as int);
            assert forall|i: int| 0 <= i < nodes.len() implies self@.table[
            #[trigger] nodes[i] as int] == buffer_descriptor(
                q.table[nodes[i] as int],
                buffers,
                ins,
                i,
            ) && self@.shared[nodes[i] as int] == self@.table[nodes[i] as int] by {
                assert(nodes[i] == free[i]);
                assert(free[i] < q.size());
                if i < total - 1 {
                    assert(free[i] != free[total - 1]);
                }
            }
            assert forall|j: int|
                0 <= j < q.table.len() && !nodes.contains(j as u16) implies #[trigger] self@.table[j]
                == q.table[j] && self@.shared[j] == q.shared[j] by {
                assert(nodes[total - 1] == last);
                assert(j != last as int);
                assert(mid.table[j] == q.table[j]);
            }
        }
        head
    }
}

/// Descriptors that were taken from the front of the free list make a chain, and
/// the others stay free.
proof fn lemma_taken(before: Queue, after: Queue, buffers: Seq<Buffer>, inputs: nat)
    requires
        before.wf(),
        0 < buffers.len() <= before.free().len(),
        before.describes(after, before.free().take(buffers.len() as int), buffers, inputs),
        after.free_head == follow(before.table, before.free_head, buffers.len()),
        after.used_count == before.used_count + buffers.len(),
    ensures
        after.free() == before.free().skip(buffers.len() as int),
        after.chain(before.free_head, buffers.len()) == before.free().take(buffers.len() as int),
        after.has_chain(before.free_head, buffers.len()),
        is_list(after.free(), after.size()),
{
    let n = buffers.len() as int;
    let free = before.free();
    let taken = free.take(n);
    let left = free.skip(n);
    lemma_walk_is_linked(before.table, before.free_head, free.len());
    assert forall|i: int| 0 <= i < free.len() implies after.table[(#[trigger] free[i]) as int].next
        == before.table[free[i] as int].next by {
        assert(free[i] < before.size());
        if i < n {
            assert(taken[i] == free[i]);
        } else {
            assert(!taken.contains(free[i])) by {
                if taken.contains(free[i]) {
                    let j = choose|j: int| 0 <= j < taken.len() && taken[j] == free[i];
                    assert(free[j] == free[i]);
                }
            }
        }
    }
    assert(is_linked(after.table, taken)) by {
        assert forall|i: int, j: int| 0 <= i && j == i + 1 && j < taken.len() implies after.table[
        #[trigger] taken[i] as int].next == #[trigger] taken[j] by {
            assert(taken[i] == free[i] && taken[j] == free[j]);
            assert(before.table[free[i] as int].next == free[j]);
        }
    }
    assert(is_linked(after.table, left)) by {
        assert forall|i: int, j: int| 0 <= i && j == i + 1 && j < left.len() implies after.table[
        #[trigger] left[i] as int].next == #[trigger] left[j] by {
            assert(left[i] == free[i + n] && left[j] == free[j + n]);
            assert(before.table[free[i + n] as int].next == free[j + n]);
        }
    }
    assert(taken[0] == free[0]);
    lemma_walk_linked(after.table, taken, before.free_head);
    if left.len() > 0 {
        assert(left[0] == free[n]);
    }
    lemma_walk_linked(after.table, left, after.free_head);
    assert(is_list(taken, after.size())) by {
        assert forall|i: int| 0 <= i < taken.len() implies (#[trigger] taken[i]) < after.size() by {
            assert(taken[i] == free[i]);
        }
        assert(taken.no_duplicates());
    }
    assert(is_list(left, after.size())) by {
        assert forall|i: int| 0 <= i < left.len() implies (#[trigger] left[i]) < after.size() by {
            assert(left[i] == free[i + n]);
        }
        assert(left.no_duplicates());
    }
    assert(apart(taken, left)) by {
        assert forall|i: int, j: int| 0 <= i < taken.len() && 0 <= j < left.len() implies taken[i]
            != left[j] by {
            assert(taken[i] == free[i] && left[j] == free[j + n]);
        }
    }
    assert(is_flagged(after.table, taken));
}

/// A chain that was given back precedes what was free before.
proof fn lemma_given_back(before: Queue, after: Queue, head: u16, n: nat)
    requires
        before.wf(),
        before.has_chain(head, n),
        after.table.len() == before.table.len(),
        after.free_head == head,
        after.used_count == before.used_count - n,
        forall|i: int|
            0 <= i < n ==> after.table[#[trigger] before.chain(head, n)[i] as int].next == if i + 1
                < n {
                before.table[before.chain(head, n)[i] as int].next
            } else {
                before.free_head
            },
        forall|k: int|
            0 <= k < before.table.len() && !before.chain(head, n).contains(k as u16)
                ==> #[trigger] after.table[k] == before.table[k],
    ensures
        after.free() == before.chain(head, n) + before.free(),
        is_list(after.free(), after.size()),
{
    let nodes = before.chain(head, n);
    let free = before.free();
    let all = nodes + free;
    lemma_list_concat(nodes, free, before.size());
    lemma_walk_is_linked(before.table, head, n);
    lemma_walk_is_linked(before.table, before.free_head, free.len());
    assert(is_linked(after.table, all)) by {
        assert forall|i: int, j: int| 0 <= i && j == i + 1 && j < all.len() implies after.table[
        #[trigger] all[i] as int].next == #[trigger] all[j] by {
            if i < n {
                assert(all[i] == nodes[i]);
                if j < n {
                    assert(all[j] == nodes[j]);
                    assert(before.table[nodes[i] as int].next == nodes[j]);
                } else {
                    assert(all[j] == free[0]);
                }
            } else {
                let a = i - n;
                assert(all[i] == free[a] && all[j] == free[a + 1]);
                assert(before.table[free[a] as int].next == free[a + 1]);
                assert(free[a] < before.size());
                assert(!nodes.contains(free[a])) by {
                    if nodes.contains(free[a]) {
                        let m = choose|m: int| 0 <= m < nodes.len() && nodes[m] == free[a];
                        assert(nodes[m] != free[a]);
                    }
                }
            }
        }
    }
    assert(all[0] == nodes[0]);
    assert(nodes[0] == head);
    lemma_walk_linked(after.table, all, head);
}

impl<const SIZE: usize> VirtioQueue<SIZE> {
    /// Give a chain back. It has exactly as many descriptors as there were
    /// buffers.
    #[verifier::spinoff_prover]
    pub fn recycle_descriptors(
        &mut self,
        chain_head: u16,
        inputs: &Vec<Buffer>,
        outputs: &Vec<Buffer>,
    )
        requires
            old(self).wf(),
            inputs@.len() + outputs@.len() <= usize::MAX,
            old(self)@.has_chain(chain_head, inputs@.len() + outputs@.len()),
            all_filled(inputs@ + outputs@),
        ensures
            final(self).wf(),
            final(self).available.flags == old(self).available.flags,
            old(self)@.recycles(final(self)@, chain_head, inputs@.len() + outputs@.len()),
            final(self)@.used_event == old(self)@.used_event,
            final(self)@.last_used_index == old(self)@.last_used_index,
    {
        let ghost q = self@;
        let total: usize = inputs.len() + outputs.len();
        let ghost n = total as nat;
        let ghost nodes = q.chain(chain_head, n);
        let original_head: u16 = self.free_descriptor_head;
        proof {
            lemma_list_concat(nodes, q.free(), q.size());
            lemma_walk_is_linked(q.table, chain_head, n);
            assert(nodes[0] == chain_head);
        }
        let mut current: Option<u16> = Some(chain_head);
        self.free_descriptor_head = chain_head;
        let mut k: usize = 0;
        while k < total
            invariant
                k <= total,
                total == n,
                q.wf(),
                q.has_chain(chain_head, n),
                nodes == q.chain(chain_head, n),
                is_linked(q.table, nodes),
                n <= q.used_count,
                original_head == q.free_head,
                current == if k < n {
                    Some(nodes[k as int])
                } else {
                    None
                },
                self@.table.len() == q.table.len(),
                self@.shared.len() == q.table.len(),
                self@ == (Queue {
                    table: self@.table,
                    shared: self@.shared,
                    free_head: chain_head,
                    used_count: q.used_count - k,
                    ..q
                }),
                forall|i: int|
                    0 <= i < k ==> self@.table[#[trigger] nodes[i] as int] == (Descriptor {
                        address: 0,
                        length: 0,
                        flags: q.table[nodes[i] as int].flags,
                        next: if i + 1 < n {
                            q.table[nodes[i] as int].next
                        } else {
                            q.free_head
                        },
                    }) && self@.shared[nodes[i] as int] == self@.table[nodes[i] as int],
                forall|j: int|
                    0 <= j < q.table.len() && !nodes.take(k as int).contains(j as u16)
                        ==> #[trigger] self@.table[j] == q.table[j] && self@.shared[j]
                        == q.shared[j],
            decreases total - k,
        {
            let ghost mid = self@;
            let ghost at = nodes[k as int];
            proof {
                assert(nodes[k as int] < q.size());
                assert(!nodes.take(k as int).contains(at)) by {
                    if nodes.take(k as int).contains(at) {
                        let j = choose|j: int|
                            0 <= j < nodes.take(k as int).len() && nodes.take(k as int)[j] == at;
                        assert(nodes[j] == nodes[k as int]);
                    }
                }
                assert(mid.table[at as int] == q.table[at as int]);
            }
            let index: u16 = match current {
                Some(index) => index,
                None => 0,
            };
            let mut entry = self.descriptor_backup[index as usize];
            entry.unset_buffer();
            self.used_count = self.used_count - 1;
            current = entry.next();
            if current.is_none() {
                entry.next = original_head;
            }
            self.descriptor_backup[index as usize] = entry;
            self.write_descriptor(index);
            proof {
                if k + 1 < n {
                    assert(q.table[nodes[k as int] as int].next == nodes[k + 1]);
                }
                assert forall|i: int| 0 <= i < k + 1 implies self@.table[
                #[trigger] nodes[i] as int] == (Descriptor {
                    address: 0,
                    length: 0,
                    flags: q.table[nodes[i] as int].flags,
                    next: if i + 1 < n {
                        q.table[nodes[i] as int].next
                    } else {
                        q.free_head
                    },
                }) && self@.shared[nodes[i] as int] == self@.table[nodes[i] as int] by {
                    if i < k {
                        assert(nodes[i] != nodes[k as int]);
                        assert(nodes[i] < q.size());
                    }
                }
                assert forall|j: int|
                    0 <= j < q.table.len() && !nodes.take(k + 1).contains(
                        j as u16,
                    ) implies #[trigger] self@.table[j] == q.table[j] && self@.shared[j]
                    == q.shared[j] by {
                    assert(nodes.take(k + 1)[k as int] == at);
                    assert(j != at as int);
                    assert(!nodes.take(k as int).contains(j as u16)) by {
                        if nodes.take(k as int).contains(j as u16) {
                            let i = choose|i: int|
                                0 <= i < nodes.take(k as int).len() && nodes.take(k as int)[i]
                                    == j as u16;
                            assert(nodes.take(k + 1)[i] == j as u16);
                        }
                    }
                    assert(mid.table[j] == q.table[j]);
                }
            }
            k = k + 1;
        }
        proof {
            assert(nodes.len() == k);
            assert(nodes.take(k as int) =~= nodes);
            lemma_given_back(q, self@, chain_head, n);
            assert(q.recycles(self@, chain_head, n));
        }
    }

    /// Whether the device has given a chain back that was not taken yet.
    pub fn can_pop(&self, used: &UsedRing<SIZE>) -> (r: bool)
        ensures
            r == (self@.last_used_index != used.index),
    {
        self.last_used_ring_index != used.index
    }

    /// Take back the next chain of the used ring, which has to be the expected
    /// one, and return how many bytes the device wrote.
    pub fn pop_used(
        &mut self,
        expected_token: u16,
        inputs: &Vec<Buffer>,
        outputs: &Vec<Buffer>,
        used: &UsedRing<SIZE>,
    ) -> (r: Result<u32, QueueError>)
        requires
            old(self).wf(),
            used.ring@.len() == SIZE,
            inputs@.len() + outputs@.len() <= usize::MAX,
            next_used(old(self)@, used.index, used.ring@) matches Some(element) && element.id % 65536
                == expected_token ==> old(self)@.has_chain(
                expected_token,
                inputs@.len() + outputs@.len(),
            ) && all_filled(inputs@ + outputs@),
        ensures
            final(self).wf(),
            final(self).available.flags == old(self).available.flags,
            match next_used(old(self)@, used.index, used.ring@) {
                None => r == Err::<u32, QueueError>(QueueError::Empty) && final(self)@ == old(
                    self,
                )@,
                Some(element) => {
                    let token = (element.id % 65536) as u16;
                    if token != expected_token {
                        &&& r == Err::<u32, QueueError>(
                            QueueError::Mismatched { expected: expected_token, got: token },
                        )
                        &&& final(self)@ == old(self)@
                    } else {
                        &&& r == Ok::<u32, QueueError>(element.length)
                        &&& old(self)@.recycles(
                            final(self)@,
                            expected_token,
                            inputs@.len() + outputs@.len(),
                        )
                        &&& final(self)@.last_used_index == old(
                            self,
                        )@.last_used_index.wrapping_add(1)
                        &&& final(self)@.used_event == if old(self)@.event_index_enabled {
                            final(self)@.last_used_index
                        } else {
                            old(self)@.used_event
                        }
                    }
                },
            },
    {
        if !self.can_pop(used) {
            return Err(QueueError::Empty);
        }
        let at: usize = ring_slot(self.last_used_ring_index, SIZE as u16);
        let entry = used.ring[at];
        let actual: u16 = (entry.id % 65536) as u16;
        if actual != expected_token {
            return Err(QueueError::Mismatched { expected: expected_token, got: actual });
        }
        let ghost before = self@;
        self.recycle_descriptors(actual, inputs, outputs);
        self.last_used_ring_index = self.last_used_ring_index.wrapping_add(1);
        if self.event_index_enabled {
            self.available.used_event = self.last_used_ring_index;
        }
        Ok(entry.length)
    }

    /// Offer buffers to the device. Returns the head of their chain and the queue
    /// of which the device is to be notified.
    pub fn submit(&mut self, inputs: &Vec<Buffer>, outputs: &Vec<Buffer>) -> (r: Result<
        (u16, u16),
        QueueError,
    >)
        requires
            old(self).wf(),
            inputs@.len() + outputs@.len() <= usize::MAX,
            inputs@.len() + outputs@.len() <= old(self)@.free().len() ==> all_filled(
                inputs@ + outputs@,
            ),
        ensures
            final(self).wf(),
            final(self).available.flags == old(self).available.flags,
            ({
                let total = inputs@.len() + outputs@.len();
                let free = old(self)@.free();
                if total == 0 {
                    r == Err::<(u16, u16), QueueError>(QueueError::NoBuffers) && final(self)@
                        == old(self)@
                } else if total > free.len() {
                    &&& r == Err::<(u16, u16), QueueError>(
                        QueueError::Insufficient { need: total as usize, have: free.len() as usize },
                    )
                    &&& final(self)@ == old(self)@
                } else {
                    &&& r == Ok::<(u16, u16), QueueError>((free[0], old(self)@.queue_index))
                    &&& old(self)@.offers(final(self)@, inputs@ + outputs@, inputs@.len())
                    &&& forall|head: u16, n: nat| #[trigger]
                        old(self)@.has_chain(head, n) ==> final(self)@.has_chain(head, n)
                            && final(self)@.chain(head, n) == old(self)@.chain(head, n)
                }
            }),
    {
        match self.add(inputs, outputs) {
            Ok(token) => Ok((token, self.queue_index)),
            Err(e) => Err(e),
        }
    }

    /// Take the answer to a request that was submitted.
    pub fn receive_answer(
        &mut self,
        token: u16,
        inputs: &Vec<Buffer>,
        outputs: &Vec<Buffer>,
        used: &UsedRing<SIZE>,
    ) -> (r: Result<u32, QueueError>)
        requires
            old(self).wf(),
            used.ring@.len() == SIZE,
            inputs@.len() + outputs@.len() <= usize::MAX,
            next_used(old(self)@, used.index, used.ring@) matches Some(element) && element.id % 65536
                == token ==> old(self)@.has_chain(token, inputs@.len() + outputs@.len())
                && all_filled(inputs@ + outputs@),
        ensures
            final(self).wf(),
            final(self).available.flags == old(self).available.flags,
            match next_used(old(self)@, used.index, used.ring@) {
                None => r == Err::<u32, QueueError>(QueueError::NoResponse) && final(self)@ == old(
                    self,
                )@,
                Some(element) => {
                    let got = (element.id % 65536) as u16;
                    if got != token {
                        &&& r == Err::<u32, QueueError>(
                            QueueError::Mismatched { expected: token, got },
                        )
                        &&& final(self)@ == old(self)@
                    } else {
                        &&& r == Ok::<u32, QueueError>(element.length)
                        &&& old(self)@.recycles(
                            final(self)@,
                            token,
                            inputs@.len() + outputs@.len(),
                        )
                        &&& final(self)@.last_used_index == old(
                            self,
                        )@.last_used_index.wrapping_add(1)
                        &&& final(self)@.used_event == if old(self)@.event_index_enabled {
                            final(self)@.last_used_index
                        } else {
                            old(self)@.used_event
                        }
                    }
                },
            },
    {
        if !self.can_pop(used) {
            return Err(QueueError::NoResponse);
        }
        self.pop_used(token, inputs, outputs, used)
    }
}

/// The element of the used ring that is to be taken next, if the device has given
/// one back.
pub open spec fn next_used(q: Queue, index: u16, ring: Seq<UsedRingElement>) -> Option<
    UsedRingElement,
> {
    if q.last_used_index == index {
        None
    } else {
        Some(ring[q.last_used_index as int % q.size() as int])
    }
}

/// What a device finds on its way along a chain in the shared table: the buffers of the
/// descriptors from `head` on, as long as they say that the chain goes on.
pub open spec fn device_reads(shared: Seq<Descriptor>, head: u16, fuel: nat) -> Seq<Buffer>
    decreases fuel,
{
    if fuel == 0 || head >= shared.len() {
        Seq::empty()
    } else {
        let desc = shared[head as int];
        let first = seq![Buffer { address: desc.address, length: desc.length }];
        if desc.flags.next {
            first + device_reads(shared, desc.next, (fuel - 1) as nat)
        } else {
            first
        }
    }
}

/// Whether a device may write to the buffers that it finds on its way along a chain.
pub open spec fn device_may_write(shared: Seq<Descriptor>, head: u16, fuel: nat) -> Seq<bool>
    decreases fuel,
{
    if fuel == 0 || head >= shared.len() {
        Seq::empty()
    } else {
        let desc = shared[head as int];
        if desc.flags.next {
            seq![desc.flags.write] + device_may_write(shared, desc.next, (fuel - 1) as nat)
        } else {
            seq![desc.flags.write]
        }
    }
}

/// A device that takes up what was offered finds exactly the buffers, in their order, and
/// may write to those behind the inputs only. It finds them under the entry of the ring
/// that the running index names, and the index tells that there is one more.
pub proof fn law_device_finds_buffers(
    before: Queue,
    after: Queue,
    buffers: Seq<Buffer>,
    inputs: nat,
)
    requires
        before.wf(),
        after.wf(),
        0 < buffers.len() <= before.free().len(),
        before.offers(after, buffers, inputs),
    ensures
        ({
            let head = after.offered[before.available_index as int % before.table.len() as int];
            let n = before.table.len();
            &&& device_reads(after.shared, head, n) == buffers
            &&& device_may_write(after.shared, head, n) == Seq::new(
                buffers.len(),
                |i: int| i >= inputs,
            )
            &&& after.offered_index == if before.available_index == u16::MAX {
                0
            } else {
                before.available_index + 1
            }
            &&& after.used_count == before.used_count + buffers.len()
            &&& forall|k: int|
                0 <= k < before.table.len() && k != before.available_index as int
                    % before.table.len() as int ==> #[trigger] after.offered[k] == before.offered[k]
        }),
{
    let n = buffers.len();
    let nodes = before.free().take(n as int);
    let head = before.free_head;
    let slot = before.available_index as int % before.table.len() as int;
    assert(after.offered[slot] == head);
    assert(nodes == after.chain(head, n));
    assert(nodes[0] == head);
    lemma_device_suffix(before, after, buffers, inputs, 0, before.table.len());
    assert(buffers.skip(0) =~= buffers);
    assert(Seq::new(n, |i: int| i >= inputs).skip(0) =~= Seq::new(n, |i: int| i >= inputs));
}

proof fn lemma_device_suffix(
    before: Queue,
    after: Queue,
    buffers: Seq<Buffer>,
    inputs: nat,
    i: int,
    fuel: nat,
)
    requires
        before.wf(),
        0 <= i < buffers.len() <= before.free().len(),
        before.offers(after, buffers, inputs),
        fuel >= buffers.len() - i,
    ensures
        ({
            let at = before.free()[i];
            let n = buffers.len();
            &&& device_reads(after.shared, at, fuel) == buffers.skip(i)
            &&& device_may_write(after.shared, at, fuel) == Seq::new(n, |k: int| k >= inputs).skip(i)
        }),
    decreases buffers.len() - i,
{
    let n = buffers.len();
    let free = before.free();
    let nodes = free.take(n as int);
    let at = free[i];
    assert(nodes[i] == at);
    assert(at < before.size());
    let desc = after.shared[at as int];
    assert(desc == buffer_descriptor(before.table[at as int], buffers, inputs, i));
    let writes = Seq::new(n, |k: int| k >= inputs);
    if i + 1 < n {
        lemma_walk_is_linked(before.table, before.free_head, free.len());
        assert(before.table[free[i] as int].next == free[i + 1]);
        lemma_device_suffix(before, after, buffers, inputs, i + 1, (fuel - 1) as nat);
    }
    assert(device_reads(after.shared, at, fuel) =~= buffers.skip(i));
    assert(device_may_write(after.shared, at, fuel) =~= writes.skip(i));
}

/// A descriptor that was given back can be offered again: after any chain is given back,
/// there are as many free descriptors more as it had, and those that were free are still.
pub proof fn law_recycled_are_free(before: Queue, after: Queue, head: u16, n: nat)
    requires
        before.wf(),
        before.has_chain(head, n),
        before.recycles(after, head, n),
    ensures
        after.free().len() == before.free().len() + n,
        forall|d: u16| #[trigger] before.free().contains(d) ==> after.free().contains(d),
        forall|i: int|
            0 <= i < n ==> after.free().contains(#[trigger] follow(before.table, head, i as nat)),
        forall|i: int|
            0 <= i < n ==> after.shared[#[trigger] follow(
                before.table,
                head,
                i as nat,
            ) as int].length == 0,
{
    let nodes = before.chain(head, n);
    let free = before.free();
    assert(after.free() == nodes + free);
    assert forall|d: u16| #[trigger] free.contains(d) implies after.free().contains(d) by {
        let k = choose|k: int| 0 <= k < free.len() && free[k] == d;
        assert(after.free()[n + k] == d);
    }
    assert forall|i: int| 0 <= i < n implies after.free().contains(
        #[trigger] follow(before.table, head, i as nat),
    ) && after.shared[follow(before.table, head, i as nat) as int].length == 0 by {
        assert(after.free()[i] == nodes[i]);
        assert(nodes[i] == follow(before.table, head, i as nat));
    }
}

/// The chain to take back next is the one that the used ring names at the place of the
/// last chain taken, and there is one as long as the device's index is ahead.
pub proof fn law_next_used(q: Queue, index: u16, ring: Seq<UsedRingElement>)
    requires
        q.table.len() > 0,
        ring.len() == q.table.len(),
    ensures
        next_used(q, index, ring) is Some <==> index != q.last_used_index,
        next_used(q, index, ring) matches Some(element) ==> element == ring[q.last_used_index as int
            % ring.len() as int],
{
}

/// A new queue has nothing in use: each descriptor describes no buffer and leads to the
/// one behind it, nothing was offered, and the device is asked to interrupt.
pub proof fn law_fresh_queue(size: nat, index: u16, events: bool, i: int)
    requires
        0 <= i < size <= 65535,
    ensures
        ({
            let q = Queue::fresh(size, index, events);
            &&& q.table.len() == size && q.shared.len() == size && q.offered.len() == size
            &&& q.table[i].length == 0 && q.table[i].address == 0
            &&& !q.table[i].flags.next && !q.table[i].flags.write
            &&& i + 1 < size ==> q.table[i].next == i + 1
            &&& q.shared[i] == q.table[i]
            &&& q.used_count == 0 && q.free_head == 0
            &&& q.offered_index == 0 && q.available_index == 0 && q.last_used_index == 0
            &&& q.offered_flags == 0
            &&& q.queue_index == index && q.event_index_enabled == events
        }),
{
}

/// Giving back the chain that was offered last restores the free list, in its
/// order, and the count of descriptors in use.
pub proof fn law_offer_recycle(
    before: Queue,
    mid: Queue,
    after: Queue,
    buffers: Seq<Buffer>,
    inputs: nat,
)
    requires
        before.wf(),
        0 < buffers.len() <= before.free().len(),
        before.offers(mid, buffers, inputs),
        mid.recycles(after, before.free_head, buffers.len()),
    ensures
        after.free() == before.free(),
        after.used_count == before.used_count,
{
    let n = buffers.len() as int;
    assert(before.free().take(n) + before.free().skip(n) =~= before.free());
}

/// Giving one chain back leaves every other chain that is in use as it is.
pub proof fn law_chains_are_independent(
    before: Queue,
    after: Queue,
    head: u16,
    n: nat,
    other: u16,
    m: nat,
)
    requires
        before.wf(),
        before.has_chain(head, n),
        before.has_chain(other, m),
        apart(before.chain(other, m), before.chain(head, n)),
        before.recycles(after, head, n),
    ensures
        after.has_chain(other, m),
        after.chain(other, m) == before.chain(other, m),
{
    let nodes = before.chain(other, m);
    assert(apart(nodes, after.free())) by {
        let given = before.chain(head, n);
        assert forall|i: int, j: int|
            0 <= i < nodes.len() && 0 <= j < after.free().len() implies nodes[i]
            != after.free()[j] by {
            if j < given.len() {
                assert(after.free()[j] == given[j]);
            } else {
                assert(after.free()[j] == before.free()[j - given.len()]);
            }
        }
    }
    lemma_chain_kept(before, after, before.chain(head, n), other, m);
}

/// What is in use and what is free add up to the size of the queue.
pub proof fn law_descriptors_add_up(q: Queue)
    requires
        q.wf(),
    ensures
        q.free().len() + q.used_count == q.size(),
{
}

/// The powers of two that fit are told from all other numbers.
pub proof fn law_powers_of_two(n: u16)
    ensures
        is_power_of_two(n) <==> {
            ||| n == 1 || n == 2 || n == 4 || n == 8
            ||| n == 16 || n == 32 || n == 64 || n == 128
            ||| n == 256 || n == 512 || n == 1024 || n == 2048
            ||| n == 4096 || n == 8192 || n == 16384 || n == 32768
        },
{
    let m: u16 = if n > 0 {
        (n - 1) as u16
    } else {
        0
    };
    assert(n > 0 && m == n - 1 ==> (n & m == 0 <==> (n == 1 || n == 2 || n == 4 || n == 8 || n
        == 16 || n == 32 || n == 64 || n == 128 || n == 256 || n == 512 || n == 1024 || n == 2048
        || n == 4096 || n == 8192 || n == 16384 || n == 32768))) by (bit_vector);
}

/// A queue stands for what its fields hold: the table is the copy that the driver keeps,
/// the shared one and the ring of offers are those that the device reads.
pub proof fn law_queue_fields<const SIZE: usize>(queue: VirtioQueue<SIZE>)
    ensures
        queue@.table == queue.descriptor_backup@,
        queue@.shared == queue.descriptors@,
        queue@.offered == queue.available.ring@,
        queue@.offered_index == queue.available.index,
        queue@.offered_flags == queue.available.flags,
        queue@.used_event == queue.available.used_event,
        queue@.used_count == queue.used_count,
        queue@.free_head == queue.free_descriptor_head,
        queue@.available_index == queue.available_index,
        queue@.last_used_index == queue.last_used_ring_index,
        queue@.event_index_enabled == queue.event_index_enabled,
        queue@.queue_index == queue.queue_index,
{
}

} // verus!
