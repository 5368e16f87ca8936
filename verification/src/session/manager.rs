//! The control record of the session manager: which sessions live and which one
//! is active.
//!
//! Membership is state, not a stream: the whole live set is in the record, so it
//! can be polled and compared any number of times. Only the commands of the user
//! travel on a FIFO and are consumed once.

use vstd::prelude::*;

verus! {

/// Root of the manager's namespace.
pub const MANAGER_ROOT: &'static str = "/term/manager";

/// Command: create a session and make it active.
pub const NEW_TAB: u8 = 1;

/// Command: close the active session.
pub const CLOSE_ACTIVE: u8 = 2;

/// Command: switch to the next live session.
pub const NEXT_TAB: u8 = 3;

/// Command: switch to the previous live session.
pub const PREV_TAB: u8 = 4;

/// Bytes of the live mask: one bit for each of the 256 session ids.
pub const LIVE_MASK_BYTES: usize = 32;

/// Size of the record. It is always read and written in full.
pub const MANAGER_CTL_SIZE: usize = 40;

/// Version of the record layout. 0 means that nothing was published yet.
pub const MANAGER_CTL_VERSION: u8 = 2;

/// Offset of the live mask in the record.
pub const OFF_MASK: usize = 4;

/// Bit `id` of a mask: byte `id / 8`, bit `id % 8`, lowest bit first.
pub open spec fn mask_bit(mask: Seq<u8>, id: u8) -> bool {
    (mask[id as int / 8] >> (id % 8)) & 1 != 0
}

/// The manager's control record. A set bit in the live mask means that the
/// session with that id is live.
#[derive(Copy, Clone, Debug)]
pub struct ManagerCtl {
    pub version: u8,
    pub active_id: u8,
    pub session_count: u8,
    pub generation: u8,
    pub live_mask: [u8; LIVE_MASK_BYTES],
}

impl ManagerCtl {
    /// The session is live.
    pub open spec fn lives(self, id: u8) -> bool {
        mask_bit(self.live_mask@, id)
    }

    /// Two records say the same.
    pub open spec fn same(self, other: ManagerCtl) -> bool {
        &&& self.version == other.version
        &&& self.active_id == other.active_id
        &&& self.session_count == other.session_count
        &&& self.generation == other.generation
        &&& self.live_mask@ == other.live_mask@
    }

    /// Nothing was published.
    pub open spec fn is_unpublished(self) -> bool {
        &&& self.version == 0
        &&& self.active_id == 0
        &&& self.session_count == 0
        &&& self.generation == 0
        &&& self.live_mask@ == Seq::new(LIVE_MASK_BYTES as nat, |i: int| 0u8)
    }

    /// The bytes of the record: version, active id, count and generation, then
    /// the mask, then zeros.
    pub open spec fn bytes(self) -> Seq<u8> {
        Seq::new(
            MANAGER_CTL_SIZE as nat,
            |i: int|
                if i == 0 {
                    self.version
                } else if i == 1 {
                    self.active_id
                } else if i == 2 {
                    self.session_count
                } else if i == 3 {
                    self.generation
                } else if i < OFF_MASK + LIVE_MASK_BYTES {
                    self.live_mask@[i - OFF_MASK]
                } else {
                    0
                },
        )
    }

    /// The record is what these bytes stand for. Too few bytes, or a version of
    /// 0, stand for the unpublished record.
    pub open spec fn is_of_bytes(self, buf: Seq<u8>) -> bool {
        if buf.len() < MANAGER_CTL_SIZE || buf[0] == 0 {
            self.is_unpublished()
        } else {
            &&& self.version == buf[0]
            &&& self.active_id == buf[1]
            &&& self.session_count == buf[2]
            &&& self.generation == buf[3]
            &&& self.live_mask@ == buf.subrange(OFF_MASK as int, OFF_MASK + LIVE_MASK_BYTES)
        }
    }

    /// The record before anything was published.
    pub fn empty() -> (r: ManagerCtl)
        ensures
            r.is_unpublished(),
    {
        let live_mask: [u8; LIVE_MASK_BYTES] = [0u8; LIVE_MASK_BYTES];
        proof {
            assert(live_mask@ =~= Seq::new(LIVE_MASK_BYTES as nat, |i: int| 0u8));
        }
        ManagerCtl { version: 0, active_id: 0, session_count: 0, generation: 0, live_mask }
    }

    /// A published record.
    pub fn new(
        active_id: u8,
        session_count: u8,
        generation: u8,
        live_mask: [u8; LIVE_MASK_BYTES],
    ) -> (r: ManagerCtl)
        ensures
            r == (ManagerCtl {
                version: MANAGER_CTL_VERSION,
                active_id,
                session_count,
                generation,
                live_mask,
            }),
    {
        ManagerCtl {
            version: MANAGER_CTL_VERSION,
            active_id,
            session_count,
            generation,
            live_mask,
        }
    }

    /// Whether a record was published.
    pub fn is_published(&self) -> (r: bool)
        ensures
            r == (self.version != 0),
    {
        self.version != 0
    }

    /// Whether the session with this id is live.
    pub fn is_live(&self, id: u8) -> (r: bool)
        ensures
            r == self.lives(id),
    {
        (self.live_mask[(id / 8) as usize] >> (id % 8)) & 1 != 0
    }

    /// The ids of the live sessions in ascending order.
    pub fn live_ids(&self) -> (r: Vec<u8>)
        ensures
            forall|i: int, j: int| 0 <= i < j < r@.len() ==> r@[i] < r@[j],
            forall|id: u8| #[trigger] r@.contains(id) <==> self.lives(id),
    {
        let mut ids: Vec<u8> = Vec::new();
        let mut next: u16 = 0;
        while next < 256
            invariant
                next <= 256,
                forall|i: int, j: int| 0 <= i < j < ids@.len() ==> ids@[i] < ids@[j],
                forall|i: int| 0 <= i < ids@.len() ==> ids@[i] < next,
                forall|id: u8| #[trigger] ids@.contains(id) <==> id < next && self.lives(id),
            decreases 256 - next,
        {
            let id: u8 = next as u8;
            let ghost before = ids@;
            if self.is_live(id) {
                ids.push(id);
                proof {
                    assert forall|k: u8| #[trigger]
                        ids@.contains(k) <==> k < next + 1 && self.lives(k) by {
                        if before.contains(k) {
                            let i = choose|i: int| 0 <= i < before.len() && before[i] == k;
                            assert(ids@[i] == k);
                        }
                        if k == id {
                            assert(ids@[before.len() as int] == k);
                        }
                        if ids@.contains(k) {
                            let i = choose|i: int| 0 <= i < ids@.len() && ids@[i] == k;
                            if i < before.len() {
                                assert(before[i] == k);
                                assert(before.contains(k));
                            }
                        }
                        if k < next + 1 && self.lives(k) && k != id {
                            assert(before.contains(k));
                        }
                    }
                }
            }
            next = next + 1;
        }
        ids
    }

    /// The record as bytes.
    pub fn encode(&self) -> (r: [u8; MANAGER_CTL_SIZE])
        ensures
            r@ == self.bytes(),
    {
        let mut buf: [u8; MANAGER_CTL_SIZE] = [0u8; MANAGER_CTL_SIZE];
        buf[0] = self.version;
        buf[1] = self.active_id;
        buf[2] = self.session_count;
        buf[3] = self.generation;
        let mut i: usize = 0;
        while i < LIVE_MASK_BYTES
            invariant
                i <= LIVE_MASK_BYTES,
                buf@.len() == MANAGER_CTL_SIZE,
                buf@[0] == self.version,
                buf@[1] == self.active_id,
                buf@[2] == self.session_count,
                buf@[3] == self.generation,
                forall|k: int| 0 <= k < i ==> buf@[OFF_MASK + k] == self.live_mask@[k],
                forall|k: int| OFF_MASK + i <= k < MANAGER_CTL_SIZE ==> buf@[k] == 0,
            decreases LIVE_MASK_BYTES - i,
        {
            buf[OFF_MASK + i] = self.live_mask[i];
            i = i + 1;
        }
        proof {
            assert forall|k: int| 0 <= k < MANAGER_CTL_SIZE implies buf@[k] == self.bytes()[k] by {
                if OFF_MASK <= k < OFF_MASK + LIVE_MASK_BYTES {
                    assert(buf@[OFF_MASK + (k - OFF_MASK)] == self.live_mask@[k - OFF_MASK]);
                }
            }
            assert(buf@ =~= self.bytes());
        }
        buf
    }

    /// The record that bytes stand for.
    pub fn decode(buf: &[u8]) -> (r: ManagerCtl)
        ensures
            r.is_of_bytes(buf@),
    {
        if buf.len() < MANAGER_CTL_SIZE || buf[0] == 0 {
            return ManagerCtl::empty();
        }
        let mut live_mask: [u8; LIVE_MASK_BYTES] = [0u8; LIVE_MASK_BYTES];
        let mut i: usize = 0;
        while i < LIVE_MASK_BYTES
            invariant
                i <= LIVE_MASK_BYTES,
                buf@.len() >= MANAGER_CTL_SIZE,
                forall|k: int| 0 <= k < i ==> live_mask@[k] == buf@[OFF_MASK + k],
            decreases LIVE_MASK_BYTES - i,
        {
            live_mask[i] = buf[OFF_MASK + i];
            i = i + 1;
        }
        proof {
            assert(live_mask@ =~= buf@.subrange(OFF_MASK as int, OFF_MASK + LIVE_MASK_BYTES));
        }
        ManagerCtl {
            version: buf[0],
            active_id: buf[1],
            session_count: buf[2],
            generation: buf[3],
            live_mask,
        }
    }
}

/// Setting one bit of a byte sets that bit and keeps the others.
proof fn lemma_set_bit(byte: u8, k: u8, j: u8)
    requires
        k < 8,
        j < 8,
    ensures
        ((byte | (1u8 << k)) >> j) & 1 != 0 <==> (j == k || (byte >> j) & 1 != 0),
{
    assert(((byte | (1u8 << k)) >> j) & 1 != 0 <==> (j == k || (byte >> j) & 1 != 0))
        by (bit_vector)
        requires
            k < 8,
            j < 8,
    ;
}

/// The mask in which exactly these ids are set.
pub fn live_mask_from_ids(ids: &Vec<u8>) -> (r: [u8; LIVE_MASK_BYTES])
    ensures
        forall|id: u8| #[trigger] mask_bit(r@, id) <==> ids@.contains(id),
{
    let mut mask: [u8; LIVE_MASK_BYTES] = [0u8; LIVE_MASK_BYTES];
    let mut i: usize = 0;
    proof {
        assert forall|id: u8| #[trigger] mask_bit(mask@, id) <==> ids@.take(0).contains(id) by {
            let k: u8 = id % 8;
            assert((0u8 >> k) & 1 == 0) by (bit_vector);
        }
    }
    while i < ids.len()
        invariant
            i <= ids@.len(),
            forall|id: u8| #[trigger] mask_bit(mask@, id) <==> ids@.take(i as int).contains(id),
        decreases ids@.len() - i,
    {
        let id: u8 = ids[i];
        let ghost before = mask@;
        let at: usize = (id / 8) as usize;
        mask[at] = mask[at] | (1u8 << (id % 8));
        i = i + 1;
        proof {
            let seen = ids@.take(i - 1);
            let now = ids@.take(i as int);
            assert(now =~= seen.push(id));
            assert forall|k: u8| #[trigger] mask_bit(mask@, k) <==> now.contains(k) by {
                assert(mask_bit(before, k) <==> seen.contains(k));
                assert(now.contains(k) <==> (seen.contains(k) || k == id)) by {
                    if seen.contains(k) {
                        let j = choose|j: int| 0 <= j < seen.len() && seen[j] == k;
                        assert(now[j] == k);
                    }
                    if k == id {
                        assert(now[seen.len() as int] == k);
                    }
                    if now.contains(k) {
                        let j = choose|j: int| 0 <= j < now.len() && now[j] == k;
                        if j < seen.len() {
                            assert(seen[j] == k);
                        }
                    }
                }
                if k / 8 == id / 8 {
                    lemma_set_bit(before[at as int], (id % 8) as u8, (k % 8) as u8);
                }
            }
        }
    }
    proof {
        assert(ids@.take(i as int) =~= ids@);
    }
    mask
}

/// What was read from a control file of `n` bytes: an incomplete record counts as
/// unpublished.
pub fn manager_record_read(buf: &[u8], n: usize) -> (r: ManagerCtl)
    ensures
        n < MANAGER_CTL_SIZE ==> r.is_unpublished(),
        n >= MANAGER_CTL_SIZE ==> r.is_of_bytes(buf@),
{
    if n < MANAGER_CTL_SIZE {
        return ManagerCtl::empty();
    }
    ManagerCtl::decode(buf)
}

/// A published record comes back from its bytes.
pub proof fn law_manager_round_trip(record: ManagerCtl, read: ManagerCtl)
    requires
        record.version != 0,
        read.is_of_bytes(record.bytes()),
    ensures
        read.same(record),
{
    assert(record.bytes().subrange(OFF_MASK as int, OFF_MASK + LIVE_MASK_BYTES)
        =~= record.live_mask@);
}

/// No session is live in an unpublished record.
pub proof fn law_unpublished_has_no_sessions(record: ManagerCtl, id: u8)
    requires
        record.is_unpublished(),
    ensures
        !record.lives(id),
{
    let k: u8 = (id % 8) as u8;
    assert((0u8 >> k) & 1 == 0) by (bit_vector);
}

/// Each field of a record has its own place in the bytes: the mask follows the first four
/// bytes, and what comes behind it is 0.
pub proof fn law_manager_fields(record: ManagerCtl, read: ManagerCtl, buf: Seq<u8>)
    requires
        buf.len() >= 40,
        buf[0] != 0,
        read.is_of_bytes(buf),
    ensures
        ({
            let b = record.bytes();
            &&& b.len() == 40
            &&& b[0] == record.version
            &&& b[1] == record.active_id
            &&& b[2] == record.session_count
            &&& b[3] == record.generation
            &&& forall|i: int| 0 <= i < 32 ==> b[i + 4] == #[trigger] record.live_mask@[i]
            &&& forall|i: int| 36 <= i < 40 ==> #[trigger] b[i] == 0
        }),
        read.version == buf[0],
        read.active_id == buf[1],
        read.session_count == buf[2],
        read.generation == buf[3],
        forall|i: int| 0 <= i < 32 ==> #[trigger] read.live_mask@[i] == buf[i + 4],
{
}

/// Each byte of the mask tells of eight sessions, the lowest bit of the lowest.
pub proof fn law_mask_bits(mask: Seq<u8>, byte: u8, bit: u8)
    requires
        mask.len() == 32,
        byte < 32,
        bit < 8,
    ensures
        mask_bit(mask, (8 * byte + bit) as u8) <==> mask[byte as int] & (1u8 << bit) != 0,
{
    let id = (8 * byte + bit) as u8;
    assert(id as int / 8 == byte && id % 8 == bit);
    let m = mask[byte as int];
    assert(((m >> bit) & 1 != 0) <==> (m & (1u8 << bit) != 0)) by (bit_vector)
        requires
            bit < 8,
    ;
}

} // verus!
