//! A session kept as a bounded buffer of its recent output, from which its
//! picture is drawn anew on a switch.

use vstd::prelude::*;
use vstd::std_specs::btree::*;

use std::collections::{BTreeMap, VecDeque};

use crate::session::control::{CtlRecord, WaitState};
use crate::session::manager::ManagerCtl;
use crate::session::mux::NO_ACTIVE;
use crate::session::screen::handle_seq;

verus! {

broadcast use group_btree_axioms;

/// Bytes that a replay buffer holds at most. Older bytes are dropped.
pub const RING_CAPACITY: usize = 65536;

/// The last bytes of `all` that fit the buffer.
pub open spec fn recent(all: Seq<u8>) -> Seq<u8> {
    if all.len() <= RING_CAPACITY {
        all
    } else {
        all.skip(all.len() - RING_CAPACITY)
    }
}

/// A session's recent output.
pub struct ReplayBuffer {
    buffer: VecDeque<u8>,
}

impl View for ReplayBuffer {
    type V = Seq<u8>;

    closed spec fn view(&self) -> Seq<u8> {
        self.buffer@
    }
}

impl ReplayBuffer {
    /// The buffer keeps its bound.
    pub open spec fn wf(&self) -> bool {
        self@.len() <= RING_CAPACITY
    }

    /// No output yet.
    pub fn new() -> (r: ReplayBuffer)
        ensures
            r.wf(),
            r@ == Seq::<u8>::empty(),
    {
        ReplayBuffer { buffer: VecDeque::new() }
    }

    /// Append output, dropping the oldest bytes where there is no room.
    pub fn push_output(&mut self, bytes: &[u8])
        requires
            old(self).wf(),
        ensures
            final(self).wf(),
            final(self)@ == recent(old(self)@ + bytes@),
    {
        let ghost before = self@;
        let mut i: usize = 0;
        proof {
            assert(before + bytes@.take(0) =~= before);
        }
        while i < bytes.len()
            invariant
                i <= bytes@.len(),
                before.len() <= RING_CAPACITY,
                self@ == recent(before + bytes@.take(i as int)),
            decreases bytes@.len() - i,
        {
            let ghost all = before + bytes@.take(i as int);
            if self.buffer.len() >= RING_CAPACITY {
                let _ = self.buffer.pop_front();
            }
            self.buffer.push_back(bytes[i]);
            i = i + 1;
            proof {
                let now = before + bytes@.take(i as int);
                assert(now =~= all.push(bytes@[i - 1]));
                assert(self@ =~= recent(now));
            }
        }
        proof {
            assert(bytes@.take(i as int) =~= bytes@);
        }
    }

    /// The bytes to draw, oldest first.
    pub fn replay(&self) -> (r: Vec<u8>)
        ensures
            r@ == self@,
    {
        let mut bytes: Vec<u8> = Vec::new();
        let mut i: usize = 0;
        while i < self.buffer.len()
            invariant
                i <= self@.len(),
                bytes@ == self@.take(i as int),
            decreases self@.len() - i,
        {
            bytes.push(self.buffer[i]);
            i = i + 1;
            proof {
                assert(bytes@ =~= self@.take(i as int));
            }
        }
        proof {
            assert(self@.take(i as int) =~= self@);
        }
        bytes
    }
}

/// What came of a read on the manager's event FIFO, on which frames of two bytes
/// arrive.
#[derive(Copy, Clone, Debug, PartialEq, Eq, Structural)]
pub enum EventRead {
    /// There is no event, or only a part of one.
    Stop,
    /// The first byte came; one more read is made for the second.
    ReadOn,
    /// A whole frame: the kind of event and the session.
    Frame(u8, u8),
}

/// Judge the first read for a frame.
pub fn first_read(bytes: &Vec<u8>) -> (r: EventRead)
    requires
        bytes@.len() <= 2,
    ensures
        r == if bytes@.len() == 0 {
            EventRead::Stop
        } else if bytes@.len() == 1 {
            EventRead::ReadOn
        } else {
            EventRead::Frame(bytes@[0], bytes@[1])
        },
{
    if bytes.len() == 0 {
        EventRead::Stop
    } else if bytes.len() == 1 {
        EventRead::ReadOn
    } else {
        EventRead::Frame(bytes[0], bytes[1])
    }
}

/// Judge the read that is to complete a frame. A frame that stays torn is not
/// acted upon.
pub fn second_read(first: u8, bytes: &Vec<u8>) -> (r: EventRead)
    requires
        bytes@.len() <= 1,
    ensures
        r == if bytes@.len() == 0 {
            EventRead::Stop
        } else {
            EventRead::Frame(first, bytes@[0])
        },
{
    if bytes.len() == 0 {
        EventRead::Stop
    } else {
        EventRead::Frame(first, bytes[0])
    }
}

/// What an event asks for.
#[derive(Copy, Clone, Debug, PartialEq, Eq, Structural)]
pub enum EventKind {
    Created,
    Destroyed,
    Unknown,
}

/// The kinds of events by their numbers.
#[derive(Copy, Clone, Debug, PartialEq, Eq, Structural)]
pub struct EventCodes {
    pub created: u8,
    pub destroyed: u8,
}

impl EventCodes {
    /// What the first byte of a frame asks for.
    pub fn kind(&self, code: u8) -> (r: EventKind)
        ensures
            r == (if code == self.created {
                EventKind::Created
            } else if code == self.destroyed {
                EventKind::Destroyed
            } else {
                EventKind::Unknown
            }),
    {
        if code == self.created {
            EventKind::Created
        } else if code == self.destroyed {
            EventKind::Destroyed
        } else {
            EventKind::Unknown
        }
    }
}

/// A session that is drawn anew from its recent output.
pub struct ReplaySession {
    pub out: Option<usize>,
    pub ctl: Option<usize>,
    pub in_writer: Option<usize>,
    pub buffer: ReplayBuffer,
}

/// The sessions at hand, each with its recent output.
pub struct ReplaySessions {
    pub sessions: BTreeMap<u8, ReplaySession>,
    pub active: u8,
}

impl ReplaySessions {
    /// Every buffer keeps its bound.
    pub open spec fn wf(&self) -> bool {
        forall|id: u8| #[trigger] self.sessions@.contains_key(id) ==> self.sessions@[id].buffer.wf()
    }

    /// No session yet.
    pub fn new() -> (r: ReplaySessions)
        ensures
            r.wf(),
            r.sessions@ == Map::<u8, ReplaySession>::empty(),
            r.active == NO_ACTIVE,
    {
        ReplaySessions { sessions: BTreeMap::new(), active: NO_ACTIVE }
    }

    /// Add a session with the endpoints that were opened for it and the output that
    /// it starts with. A session that is at hand stays as it is. The result says
    /// whether the screen is to be drawn anew.
    pub fn add_session(
        &mut self,
        id: u8,
        out: Option<usize>,
        ctl: Option<usize>,
        banner: &[u8],
    ) -> (r: bool)
        requires
            old(self).wf(),
        ensures
            final(self).wf(),
            final(self).active == old(self).active,
            old(self).sessions@.contains_key(id) ==> !r && final(self).sessions@
                == old(self).sessions@,
            !old(self).sessions@.contains_key(id) ==> {
                let new = final(self).sessions@[id];
                &&& final(self).sessions@ == old(self).sessions@.insert(id, new)
                &&& new.out == out
                &&& new.ctl == ctl
                &&& new.in_writer is None
                &&& new.buffer@ == recent(banner@)
                &&& r == (id == old(self).active)
            },
    {
        if self.sessions.contains_key(&id) {
            return false;
        }
        let mut buffer = ReplayBuffer::new();
        buffer.push_output(banner);
        proof {
            assert(Seq::<u8>::empty() + banner@ =~= banner@);
        }
        let _ = self.sessions.insert(id, ReplaySession { out, ctl, in_writer: None, buffer });
        id == self.active
    }

    /// Remove a session and return its handles, which are to be closed.
    pub fn remove_session(&mut self, id: u8) -> (r: Vec<usize>)
        requires
            old(self).wf(),
        ensures
            final(self).wf(),
            final(self).active == old(self).active,
            final(self).sessions@ == old(self).sessions@.remove(id),
            r@ == (if old(self).sessions@.contains_key(id) {
                let gone = old(self).sessions@[id];
                handle_seq(gone.out) + handle_seq(gone.ctl) + handle_seq(gone.in_writer)
            } else {
                Seq::empty()
            }),
    {
        let mut handles: Vec<usize> = Vec::new();
        let gone = self.sessions.remove(&id);
        proof {
            assert(self.sessions@ =~= old(self).sessions@.remove(id));
        }
        if let Some(session) = gone {
            if let Some(handle) = session.out {
                handles.push(handle);
            }
            if let Some(handle) = session.ctl {
                handles.push(handle);
            }
            if let Some(handle) = session.in_writer {
                handles.push(handle);
            }
            proof {
                assert(handles@ =~= handle_seq(session.out) + handle_seq(session.ctl) + handle_seq(
                    session.in_writer,
                ));
            }
        }
        handles
    }

    /// Select the session that the manager's record names, if it is another one and
    /// at hand. The result says whether the screen is to be drawn anew.
    pub fn poll_active(&mut self, record: &ManagerCtl) -> (r: bool)
        requires
            old(self).wf(),
        ensures
            final(self).wf(),
            final(self).sessions@ == old(self).sessions@,
            r == (record.version != 0 && record.active_id != old(self).active
                && old(self).sessions@.contains_key(record.active_id)),
            final(self).active == (if r {
                record.active_id
            } else {
                old(self).active
            }),
    {
        if !record.is_published() {
            return false;
        }
        if record.active_id != self.active && self.sessions.contains_key(&record.active_id) {
            self.active = record.active_id;
            return true;
        }
        false
    }

    /// Keep output of a session. The result says whether it is to be shown at once.
    pub fn take_output(&mut self, id: u8, bytes: &[u8]) -> (r: bool)
        requires
            old(self).wf(),
        ensures
            final(self).wf(),
            final(self).active == old(self).active,
            r == (old(self).sessions@.contains_key(id) && bytes@.len() > 0 && id
                == old(self).active),
            final(self).sessions@.dom() == old(self).sessions@.dom(),
            forall|k: u8| #[trigger]
                final(self).sessions@.contains_key(k) && k != id ==> final(self).sessions@[k]
                    == old(self).sessions@[k],
            old(self).sessions@.contains_key(id) ==> {
                let a = old(self).sessions@[id];
                let b = final(self).sessions@[id];
                &&& b.buffer@ == recent(a.buffer@ + bytes@)
                &&& b.out == a.out
                &&& b.ctl == a.ctl
                &&& b.in_writer == a.in_writer
            },
    {
        match self.sessions.remove(&id) {
            Some(mut session) => {
                assert(old(self).sessions@[id].buffer.wf());
                session.buffer.push_output(bytes);
                let _ = self.sessions.insert(id, session);
                proof {
                    assert(self.sessions@.dom() =~= old(self).sessions@.dom());
                }
                bytes.len() > 0 && id == self.active
            },
            None => {
                proof {
                    assert(self.sessions@ =~= old(self).sessions@);
                }
                false
            },
        }
    }

    /// The handle from which the active session's control record is read.
    pub fn active_ctl(&self) -> (r: Option<usize>)
        ensures
            r == if self.sessions@.contains_key(self.active) {
                self.sessions@[self.active].ctl
            } else {
                None
            },
    {
        match self.sessions.get(&self.active) {
            Some(session) => session.ctl,
            None => None,
        }
    }

    /// Whether the active session's standard input is to be opened for writing:
    /// its application waits and it is not open yet.
    pub fn ensure_active_in_writer(&self, record: Option<CtlRecord>) -> (r: bool)
        ensures
            r == (record matches Some(rec) && rec.wait == WaitState::Waiting
                && self.sessions@.contains_key(self.active)
                && self.sessions@[self.active].in_writer is None),
    {
        let waiting = match record {
            Some(rec) => rec.wait == WaitState::Waiting,
            None => false,
        };
        match self.sessions.get(&self.active) {
            Some(session) => waiting && session.in_writer.is_none(),
            None => false,
        }
    }

    /// Keep the handle that was opened for the active session's standard input.
    pub fn set_in_writer(&mut self, handle: Option<usize>)
        requires
            old(self).wf(),
        ensures
            final(self).wf(),
            final(self).active == old(self).active,
            final(self).sessions@ == if old(self).sessions@.contains_key(old(self).active) {
                old(self).sessions@.insert(
                    old(self).active,
                    (ReplaySession {
                        in_writer: handle,
                        ..old(self).sessions@[old(self).active]
                    }),
                )
            } else {
                old(self).sessions@
            },
    {
        let id: u8 = self.active;
        if let Some(mut session) = self.sessions.remove(&id) {
            assert(old(self).sessions@[id].buffer.wf());
            session.in_writer = handle;
            let _ = self.sessions.insert(id, session);
            proof {
                assert(self.sessions@ =~= old(self).sessions@.insert(id, session));
            }
        }
    }

    /// The handle to which input for the active session is written.
    pub fn deliver(&self) -> (r: Option<usize>)
        ensures
            r == if self.sessions@.contains_key(self.active) {
                self.sessions@[self.active].in_writer
            } else {
                None
            },
    {
        match self.sessions.get(&self.active) {
            Some(session) => session.in_writer,
            None => None,
        }
    }

    /// The bytes that draw the active session on a cleared screen.
    pub fn render_active(&self) -> (r: Vec<u8>)
        ensures
            r@ == (if self.sessions@.contains_key(self.active) {
                self.sessions@[self.active].buffer@
            } else {
                Seq::empty()
            }),
    {
        match self.sessions.get(&self.active) {
            Some(session) => session.buffer.replay(),
            None => Vec::new(),
        }
    }
}

/// Pushing output in two pieces keeps the same bytes as pushing it at once.
pub proof fn law_push_in_pieces(buffer: Seq<u8>, a: Seq<u8>, b: Seq<u8>)
    ensures
        recent(recent(buffer + a) + b) == recent(buffer + (a + b)),
{
    assert(recent(recent(buffer + a) + b) =~= recent(buffer + (a + b)));
}

/// What is kept are the newest bytes, all of them as long as there is room: nothing newer
/// is ever dropped in favour of something older.
pub proof fn law_newest_are_kept(all: Seq<u8>)
    ensures
        recent(all).len() <= RING_CAPACITY,
        all.len() <= RING_CAPACITY ==> recent(all).len() == all.len(),
        all.len() > RING_CAPACITY ==> recent(all).len() == RING_CAPACITY,
        forall|i: int|
            1 <= i <= recent(all).len() ==> recent(all)[recent(all).len() - i]
                == #[trigger] all[all.len() - i],
{
}

} // verus!
