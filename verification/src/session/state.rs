//! The session manager: which sessions there are, which one is active, and what
//! the commands of the user do to them.

use vstd::prelude::*;
use vstd::std_specs::btree::*;
use vstd::string::*;

use std::collections::BTreeMap;

use crate::session::manager::{
    live_mask_from_ids,
    mask_bit,
    ManagerCtl,
    CLOSE_ACTIVE,
    MANAGER_CTL_VERSION,
    NEW_TAB,
    NEXT_TAB,
    PREV_TAB,
};
use crate::session::path::SESSION_DESCRIPTOR_KEY;
use crate::text::{decimal, push_decimal};

verus! {

broadcast use group_btree_axioms;

/// Maximum number of sessions at a time. Ids are never given back, so this bounds
/// how many sessions there are, not how high their ids go.
pub const MAX_SESSIONS: usize = 8;

/// What remains to be done for a command.
#[derive(Copy, Clone, Debug, PartialEq, Eq, Structural)]
pub enum ManagerAction {
    /// The command was refused or unknown; nothing changed.
    Ignore,
    /// Create the objects of this session, start its supervisor, publish.
    Created(u8),
    /// Terminate the thread with this id, unless it is 0, and publish.
    Closed(usize),
    /// Publish.
    Switched,
}

/// What the supervisor of a session does next.
#[derive(Copy, Clone, Debug, PartialEq, Eq, Structural)]
pub enum SuperviseStep {
    /// The session was closed: nothing more.
    Stop,
    /// Start the session's shell, note it and wait until it ends.
    Start,
    /// Pause for this many milliseconds.
    Sleep(usize),
}

/// Milliseconds between two attempts to start a shell.
pub const RETRY_PAUSE: usize = 500;

/// Number of ids. An id is given to one session only, so once this many sessions
/// were created there can be no other.
pub const SESSION_IDS: u16 = 256;

/// The manager's state as a mathematical value. `shells` maps each live session
/// to the thread id of its shell, 0 while none runs. The ids below `next_id` were
/// given out.
#[verifier::ext_equal]
pub struct Sessions {
    pub shells: Map<u8, usize>,
    pub active: u8,
    pub next_id: u16,
    pub generation: u8,
}

/// One thing that the manager does to its state.
pub enum ManagerStep {
    /// It carries out a command, which asks for an action.
    Command(u8, ManagerAction),
    /// It notes the thread id of a session's shell.
    Noted(u8, usize),
    /// It publishes a new record.
    Published,
}

/// `id` is the lowest of the keys.
pub open spec fn is_lowest(keys: Set<u8>, id: u8) -> bool {
    keys.contains(id) && forall|k: u8| #[trigger] keys.contains(k) ==> id <= k
}

/// `id` is the highest of the keys.
pub open spec fn is_highest(keys: Set<u8>, id: u8) -> bool {
    keys.contains(id) && forall|k: u8| #[trigger] keys.contains(k) ==> k <= id
}

/// `id` follows `from` among the keys: the lowest above it, or the lowest of all
/// behind the highest.
pub open spec fn is_next(keys: Set<u8>, from: u8, id: u8) -> bool {
    if is_highest(keys, from) {
        is_lowest(keys, id)
    } else {
        &&& keys.contains(id)
        &&& from < id
        &&& forall|k: u8| #[trigger] keys.contains(k) && from < k ==> id <= k
    }
}

/// `id` precedes `from` among the keys: the highest below it, or the highest of
/// all in front of the lowest.
pub open spec fn is_previous(keys: Set<u8>, from: u8, id: u8) -> bool {
    if is_lowest(keys, from) {
        is_highest(keys, id)
    } else {
        &&& keys.contains(id)
        &&& id < from
        &&& forall|k: u8| #[trigger] keys.contains(k) && k < from ==> k <= id
    }
}

impl Sessions {
    /// There is at least one session and at most the maximum, the active one is
    /// among them, and each has an id that was given out.
    pub open spec fn wf(self) -> bool {
        &&& self.shells.dom().finite()
        &&& 1 <= self.shells.len() <= MAX_SESSIONS
        &&& self.shells.contains_key(self.active)
        &&& self.next_id <= SESSION_IDS
        &&& forall|id: u8| #[trigger] self.shells.contains_key(id) ==> id < self.next_id
    }

    /// Another session can be created: there are fewer than the maximum and an id
    /// is left.
    pub open spec fn has_room(self) -> bool {
        self.shells.len() < MAX_SESSIONS && self.next_id < SESSION_IDS
    }

    /// The state before the first command: session 0 alone.
    pub open spec fn initial() -> Sessions {
        Sessions { shells: map![0u8 => 0usize], active: 0, next_id: 1, generation: 0 }
    }

    /// A session was created: it got the next id and is active.
    pub open spec fn with_new(self) -> Sessions {
        Sessions {
            shells: self.shells.insert(self.next_id as u8, 0),
            active: self.next_id as u8,
            next_id: (self.next_id + 1) as u16,
            ..self
        }
    }

    /// `after` and `action` are what a command leads to. A new session is refused
    /// where there is no room, the last session is never closed, and with a single
    /// session there is none to switch to.
    pub open spec fn handled(self, command: u8, after: Sessions, action: ManagerAction) -> bool {
        if command == NEW_TAB {
            if self.has_room() {
                after == self.with_new() && action == ManagerAction::Created(self.next_id as u8)
            } else {
                after == self && action == ManagerAction::Ignore
            }
        } else if command == CLOSE_ACTIVE {
            if self.shells.len() <= 1 {
                after == self && action == ManagerAction::Ignore
            } else {
                let left = self.shells.remove(self.active);
                &&& after == (Sessions { shells: left, active: after.active, ..self })
                &&& is_lowest(left.dom(), after.active)
                &&& action == ManagerAction::Closed(self.shells[self.active])
            }
        } else if command == NEXT_TAB || command == PREV_TAB {
            if self.shells.len() <= 1 {
                after == self && action == ManagerAction::Ignore
            } else {
                &&& after == (Sessions { active: after.active, ..self })
                &&& command == NEXT_TAB ==> is_next(self.shells.dom(), self.active, after.active)
                &&& command == PREV_TAB ==> is_previous(
                    self.shells.dom(),
                    self.active,
                    after.active,
                )
                &&& action == ManagerAction::Switched
            }
        } else {
            after == self && action == ManagerAction::Ignore
        }
    }

    /// The shell of a session was noted, if the session lives.
    pub open spec fn noted(self, id: u8, tid: usize) -> Sessions {
        Sessions {
            shells: if self.shells.contains_key(id) {
                self.shells.insert(id, tid)
            } else {
                self.shells
            },
            ..self
        }
    }

    /// The generation was bumped for a new record.
    pub open spec fn bumped(self) -> Sessions {
        Sessions { generation: self.generation.wrapping_add(1), ..self }
    }

    /// `after` is what a step of the manager leads to.
    pub open spec fn stepped(self, step: ManagerStep, after: Sessions) -> bool {
        match step {
            ManagerStep::Command(command, action) => self.handled(command, after, action),
            ManagerStep::Noted(id, tid) => after == self.noted(id, tid),
            ManagerStep::Published => after == self.bumped(),
        }
    }

    /// The record publishes this state.
    pub open spec fn published_as(self, record: ManagerCtl) -> bool {
        &&& record.version == MANAGER_CTL_VERSION
        &&& record.active_id == self.active
        &&& record.session_count == self.shells.len()
        &&& record.generation == self.generation
        &&& forall|id: u8| #[trigger] record.lives(id) <==> self.shells.contains_key(id)
    }
}

/// The ids below `n` that are keys of the map, in ascending order.
pub open spec fn lists_keys(ids: Seq<u8>, keys: Set<u8>, n: int) -> bool {
    &&& forall|i: int, j: int| 0 <= i < j < ids.len() ==> ids[i] < ids[j]
    &&& forall|i: int| 0 <= i < ids.len() ==> keys.contains(#[trigger] ids[i]) && ids[i] < n
    &&& forall|id: u8| #[trigger] keys.contains(id) && id < n ==> ids.contains(id)
}

/// The manager's state.
pub struct ManagerState {
    sessions: BTreeMap<u8, usize>,
    active: u8,
    next_id: u16,
    generation: u8,
}

impl View for ManagerState {
    type V = Sessions;

    closed spec fn view(&self) -> Sessions {
        Sessions {
            shells: self.sessions@,
            active: self.active,
            next_id: self.next_id,
            generation: self.generation,
        }
    }
}

impl ManagerState {
    /// See `Sessions::wf`.
    pub open spec fn wf(&self) -> bool {
        self@.wf()
    }

    /// Session 0 alone, with no shell yet.
    pub fn new() -> (r: ManagerState)
        ensures
            r.wf(),
            r@ == Sessions::initial(),
    {
        let mut sessions: BTreeMap<u8, usize> = BTreeMap::new();
        let _ = sessions.insert(0, 0);
        let r = ManagerState { sessions, active: 0, next_id: 1, generation: 0 };
        proof {
            assert(r@.shells =~= Sessions::initial().shells);
        }
        r
    }

    /// Whether the session lives.
    pub fn is_alive(&self, id: u8) -> (r: bool)
        ensures
            r == self@.shells.contains_key(id),
    {
        self.sessions.contains_key(&id)
    }

    /// Note the shell of a session. A session that is gone stays gone.
    pub fn set_shell_tid(&mut self, id: u8, tid: usize)
        requires
            old(self).wf(),
        ensures
            final(self).wf(),
            final(self)@ == old(self)@.noted(id, tid),
    {
        if self.sessions.contains_key(&id) {
            let _ = self.sessions.insert(id, tid);
            proof {
                assert(self@.shells.dom() =~= old(self)@.shells.dom());
            }
        }
    }

    /// What the supervisor of a session does next, given whether it has just failed to
    /// start the shell. After a failure it pauses; then, as after a shell that ended, it
    /// starts the shell again unless the session was closed.
    pub fn supervise_step(&self, id: u8, start_failed: bool) -> (r: SuperviseStep)
        ensures
            r == (if start_failed {
                SuperviseStep::Sleep(RETRY_PAUSE)
            } else if self@.shells.contains_key(id) {
                SuperviseStep::Start
            } else {
                SuperviseStep::Stop
            }),
    {
        if start_failed {
            SuperviseStep::Sleep(RETRY_PAUSE)
        } else if self.is_alive(id) {
            SuperviseStep::Start
        } else {
            SuperviseStep::Stop
        }
    }

    /// The ids of the live sessions in ascending order.
    pub fn live_ids(&self) -> (r: Vec<u8>)
        ensures
            lists_keys(r@, self@.shells.dom(), 256),
    {
        let mut ids: Vec<u8> = Vec::new();
        let mut n: u16 = 0;
        while n < 256
            invariant
                n <= 256,
                lists_keys(ids@, self@.shells.dom(), n as int),
            decreases 256 - n,
        {
            let id: u8 = n as u8;
            let ghost before = ids@;
            if self.sessions.contains_key(&id) {
                ids.push(id);
            }
            proof {
                assert forall|k: u8| #[trigger]
                    self@.shells.dom().contains(k) && k < n + 1 implies ids@.contains(k) by {
                    if k == id {
                        assert(ids@[before.len() as int] == k);
                    } else {
                        assert(before.contains(k));
                        let i = choose|i: int| 0 <= i < before.len() && before[i] == k;
                        assert(ids@[i] == k);
                    }
                }
            }
            n = n + 1;
        }
        ids
    }

    /// Bump the generation and return the record to publish.
    pub fn publish_ctl(&mut self) -> (r: ManagerCtl)
        requires
            old(self).wf(),
        ensures
            final(self).wf(),
            final(self)@ == old(self)@.bumped(),
            final(self)@.published_as(r),
    {
        self.generation = self.generation.wrapping_add(1);
        let ids = self.live_ids();
        let mask = live_mask_from_ids(&ids);
        let record = ManagerCtl::new(
            self.active,
            self.sessions.len() as u8,
            self.generation,
            mask,
        );
        proof {
            assert forall|id: u8| #[trigger] record.lives(id) <==> self@.shells.contains_key(id) by {
                assert(mask_bit(mask@, id) <==> ids@.contains(id));
                if ids@.contains(id) {
                    let i = choose|i: int| 0 <= i < ids@.len() && ids@[i] == id;
                    assert(self@.shells.dom().contains(ids@[i]));
                }
                if self@.shells.dom().contains(id) {
                    assert(ids@.contains(id));
                }
            }
        }
        record
    }

    /// Carry out a command.
    pub fn handle_command(&mut self, command: u8) -> (r: ManagerAction)
        requires
            old(self).wf(),
        ensures
            final(self).wf(),
            old(self)@.handled(command, final(self)@, r),
    {
        match command {
            NEW_TAB => self.new_tab(),
            CLOSE_ACTIVE => self.close_active(),
            NEXT_TAB => self.switch_relative(true),
            PREV_TAB => self.switch_relative(false),
            _ => ManagerAction::Ignore,
        }
    }

    fn new_tab(&mut self) -> (r: ManagerAction)
        requires
            old(self).wf(),
        ensures
            final(self).wf(),
            old(self)@.handled(NEW_TAB, final(self)@, r),
    {
        if self.sessions.len() >= MAX_SESSIONS || self.next_id >= SESSION_IDS {
            return ManagerAction::Ignore;
        }
        let id: u8 = self.next_id as u8;
        self.next_id = self.next_id + 1;
        let _ = self.sessions.insert(id, 0);
        self.active = id;
        ManagerAction::Created(id)
    }

    fn close_active(&mut self) -> (r: ManagerAction)
        requires
            old(self).wf(),
        ensures
            final(self).wf(),
            old(self)@.handled(CLOSE_ACTIVE, final(self)@, r),
    {
        // At least one session stays.
        if self.sessions.len() <= 1 {
            return ManagerAction::Ignore;
        }
        let id: u8 = self.active;
        let shell_tid: usize = match self.sessions.remove(&id) {
            Some(tid) => tid,
            None => 0,
        };
        // The lowest session that is left becomes the active one.
        let ids = self.live_ids();
        proof {
            let keys = self@.shells.dom();
            let some = keys.choose();
            assert(keys.contains(some));
            assert(ids@.contains(some));
        }
        self.active = ids[0];
        proof {
            let keys = self@.shells.dom();
            assert(keys.contains(ids@[0]));
            assert forall|k: u8| #[trigger] keys.contains(k) implies ids@[0] <= k by {
                assert(ids@.contains(k));
                let i = choose|i: int| 0 <= i < ids@.len() && ids@[i] == k;
                assert(i == 0 || ids@[0] < ids@[i]);
            }
        }
        ManagerAction::Closed(shell_tid)
    }

    fn switch_relative(&mut self, forward: bool) -> (r: ManagerAction)
        requires
            old(self).wf(),
        ensures
            final(self).wf(),
            old(self)@.handled(if forward { NEXT_TAB } else { PREV_TAB }, final(self)@, r),
    {
        let ids = self.live_ids();
        if self.sessions.len() <= 1 {
            return ManagerAction::Ignore;
        }
        let ghost keys = self@.shells.dom();
        let count: usize = ids.len();
        let mut at: usize = 0;
        proof {
            assert(keys.contains(self.active));
            assert(ids@.contains(self.active));
        }
        while at < count && ids[at] != self.active
            invariant
                at <= count,
                count == ids@.len(),
                forall|i: int| 0 <= i < at ==> ids@[i] != self.active,
            decreases count - at,
        {
            at = at + 1;
        }
        proof {
            let i = choose|i: int| 0 <= i < ids@.len() && ids@[i] == self.active;
            assert(at <= i);
            assert forall|k: u8| #[trigger] keys.contains(k) implies exists|i: int|
                0 <= i < count && ids@[i] == k by {
                assert(ids@.contains(k));
            }
            assert(keys.contains(ids@[0]));
            assert(keys.contains(ids@[count - 1]));
        }
        let next: usize = if forward {
            if at + 1 < count { at + 1 } else { 0 }
        } else {
            if at > 0 { at - 1 } else { count - 1 }
        };
        let ghost from = self.active;
        self.active = ids[next];
        proof {
            let to = ids@[next as int];
            assert(keys.contains(to));
            assert forall|k: u8| #[trigger] keys.contains(k) implies ids@[0] <= k && k
                <= ids@[count - 1] by {
                let i = choose|i: int| 0 <= i < count && ids@[i] == k;
                assert(i == 0 || ids@[0] < ids@[i]);
                assert(i == count - 1 || ids@[i] < ids@[count - 1]);
            }
            if forward {
                if at + 1 < count {
                    assert(ids@[at as int] < ids@[at + 1]);
                    assert(!is_highest(keys, from));
                    assert forall|k: u8| #[trigger] keys.contains(k) && from < k implies to
                        <= k by {
                        let i = choose|i: int| 0 <= i < count && ids@[i] == k;
                        assert(i > at) by {
                            if i < at {
                                assert(ids@[i] < ids@[at as int]);
                            }
                        }
                        assert(i == at + 1 || ids@[at + 1] < ids@[i]);
                    }
                } else {
                    assert(is_highest(keys, from));
                }
            } else {
                if at > 0 {
                    assert(ids@[at - 1] < ids@[at as int]);
                    assert(!is_lowest(keys, from));
                    assert forall|k: u8| #[trigger] keys.contains(k) && k < from implies k
                        <= to by {
                        let i = choose|i: int| 0 <= i < count && ids@[i] == k;
                        assert(i < at) by {
                            if i > at {
                                assert(ids@[at as int] < ids@[i]);
                            }
                        }
                        assert(i == at - 1 || ids@[i] < ids@[at - 1]);
                    }
                } else {
                    assert(is_lowest(keys, from));
                }
            }
        }
        ManagerAction::Switched
    }
}

/// The environment entry that tells a shell its session.
pub fn session_descriptor(id: u8) -> (r: String)
    ensures
        r@ == SESSION_DESCRIPTOR_KEY@.push('=') + decimal(id as nat),
{
    let mut entry = SESSION_DESCRIPTOR_KEY.to_owned();
    entry.push('=');
    push_decimal(&mut entry, id as u64);
    entry
}

/// Whatever the commands, there is at least one session and at most the maximum,
/// and the active one is among them.
pub proof fn law_active_lives(before: Sessions, command: u8, after: Sessions, action: ManagerAction)
    requires
        before.wf(),
        before.handled(command, after, action),
    ensures
        after.wf(),
{
    if command == CLOSE_ACTIVE && before.shells.len() > 1 {
        assert(after.shells.dom() =~= before.shells.dom().remove(before.active));
    }
    if command == NEW_TAB && before.has_room() {
        assert(after.shells.dom() =~= before.shells.dom().insert(before.next_id as u8));
    }
}

/// Noting a shell and publishing leave alone which sessions there are, which one is
/// active and which ids were given out.
pub proof fn law_only_commands_change_sessions(before: Sessions, step: ManagerStep, after: Sessions)
    requires
        before.wf(),
        before.stepped(step, after),
        !(step is Command),
    ensures
        after.wf(),
        after.shells.dom() == before.shells.dom(),
        after.active == before.active,
        after.next_id == before.next_id,
{
    assert(after.shells.dom() =~= before.shells.dom());
}

/// One state after the other, each as the step at its place leads to.
pub open spec fn is_run(states: Seq<Sessions>, steps: Seq<ManagerStep>) -> bool {
    &&& states.len() == steps.len() + 1
    &&& states[0].wf()
    &&& forall|i: int| 0 <= i < steps.len() ==> states[i].stepped(#[trigger] steps[i], states[i + 1])
}

proof fn lemma_run_wf(states: Seq<Sessions>, steps: Seq<ManagerStep>, from: int, to: int)
    requires
        is_run(states, steps),
        0 <= from <= to < states.len(),
    ensures
        states[from].wf(),
        states[to].wf(),
        states[from].next_id <= states[to].next_id,
    decreases to,
{
    if to > 0 {
        if from < to {
            lemma_run_wf(states, steps, from, to - 1);
        } else {
            lemma_run_wf(states, steps, to - 1, to - 1);
        }
        let step = steps[to - 1];
        assert(states[to - 1].stepped(step, states[to]));
        match step {
            ManagerStep::Command(command, action) => {
                law_active_lives(states[to - 1], command, states[to], action);
            },
            _ => {
                law_only_commands_change_sessions(states[to - 1], step, states[to]);
            },
        }
    }
}

/// Over any run of the manager, through whatever commands, shells and records, there is
/// at least one session and at most the maximum, and the active one is among them.
pub proof fn law_active_lives_throughout(states: Seq<Sessions>, steps: Seq<ManagerStep>, i: int)
    requires
        is_run(states, steps),
        0 <= i < states.len(),
    ensures
        states[i].wf(),
{
    lemma_run_wf(states, steps, 0, i);
}

/// The id of a session that was closed is never given to another one: over any run of
/// the manager, through whatever commands, shells and records, no two sessions that are
/// created get the same id, and none gets the id of a session that lived when the run
/// began.
pub proof fn law_ids_are_never_reused(
    states: Seq<Sessions>,
    steps: Seq<ManagerStep>,
    i: int,
    j: int,
    first: u8,
    second: u8,
    a: u8,
    b: u8,
)
    requires
        is_run(states, steps),
        0 <= i < j < steps.len(),
        steps[i] == ManagerStep::Command(first, ManagerAction::Created(a)),
        steps[j] == ManagerStep::Command(second, ManagerAction::Created(b)),
    ensures
        a != b,
        !states[0].shells.contains_key(a),
        !states[0].shells.contains_key(b),
{
    lemma_run_wf(states, steps, 0, i);
    lemma_run_wf(states, steps, i + 1, j);
    lemma_run_wf(states, steps, i, j);
    assert(states[i].stepped(steps[i], states[i + 1]));
    assert(states[j].stepped(steps[j], states[j + 1]));
}

/// Switching to the next session and back to the previous one ends where it began.
pub proof fn law_next_previous(before: Sessions, mid: Sessions, after: Sessions)
    requires
        before.wf(),
        before.shells.len() > 1,
        before.handled(NEXT_TAB, mid, ManagerAction::Switched),
        mid.handled(PREV_TAB, after, ManagerAction::Switched),
    ensures
        after == before,
{
    let keys = before.shells.dom();
    let a = before.active;
    let b = mid.active;
    assert(keys.contains(a));
    assert(keys.contains(b));
    if is_highest(keys, a) {
        assert(is_lowest(keys, b));
        assert(is_highest(keys, after.active));
        assert(keys.contains(after.active));
    } else {
        assert(a < b);
        assert(!is_lowest(keys, b));
        assert(keys.contains(after.active));
        assert(a <= after.active);
        if a < after.active {
            assert(b <= after.active);
        }
    }
}

/// A new session gets an id that was never given out, has no shell yet and is active. All
/// others stay. With eight sessions, or with all ids used up, nothing changes.
pub proof fn law_new_session(s: Sessions, after: Sessions, action: ManagerAction)
    requires
        s.wf(),
        s.handled(1, after, action),
    ensures
        s.shells.len() < 8 && s.next_id < 256 ==> {
            let id = after.active;
            &&& action == ManagerAction::Created(id)
            &&& id == s.next_id
            &&& !s.shells.contains_key(id)
            &&& after.shells.contains_key(id) && after.shells[id] == 0
            &&& after.shells.len() == s.shells.len() + 1
            &&& forall|k: u8| #[trigger]
                s.shells.contains_key(k) ==> after.shells.contains_key(k) && after.shells[k]
                    == s.shells[k]
            &&& after.next_id == s.next_id + 1
            &&& after.generation == s.generation
        },
        s.shells.len() >= 8 || s.next_id >= 256 ==> after == s && action == ManagerAction::Ignore,
{
    if s.shells.len() < 8 && s.next_id < 256 {
        assert(after.active == s.next_id);
        assert(!s.shells.contains_key(after.active));
    }
}

/// Closing ends the active session alone, hands out its shell, and activates the lowest
/// session that is left. The only session is not closed.
pub proof fn law_close_session(s: Sessions, after: Sessions, action: ManagerAction)
    requires
        s.wf(),
        s.handled(2, after, action),
    ensures
        s.shells.len() > 1 ==> {
            &&& action == ManagerAction::Closed(s.shells[s.active])
            &&& !after.shells.contains_key(s.active)
            &&& after.shells.len() == s.shells.len() - 1
            &&& forall|k: u8| #[trigger]
                s.shells.contains_key(k) && k != s.active ==> after.shells.contains_key(k)
                    && after.shells[k] == s.shells[k]
            &&& after.shells.contains_key(after.active)
            &&& forall|k: u8| #[trigger] after.shells.contains_key(k) ==> after.active <= k
            &&& after.next_id == s.next_id
            &&& after.generation == s.generation
        },
        s.shells.len() == 1 ==> after == s && action == ManagerAction::Ignore,
{
    if s.shells.len() > 1 {
        assert(after.shells.dom().contains(after.active));
        assert forall|k: u8| #[trigger] after.shells.contains_key(k) implies after.active <= k by {
            assert(after.shells.dom().contains(k));
        }
    }
}

/// Switching changes which session is active and nothing else. To the next: to the
/// closest one above, or, if there is none above, to the lowest. To the previous: to the
/// closest one below, or, if there is none below, to the highest.
pub proof fn law_switch_session(s: Sessions, command: u8, after: Sessions, action: ManagerAction)
    requires
        s.wf(),
        s.shells.len() > 1,
        command == 3 || command == 4,
        s.handled(command, after, action),
    ensures
        action == ManagerAction::Switched,
        after.shells == s.shells,
        after.next_id == s.next_id,
        after.generation == s.generation,
        s.shells.contains_key(after.active),
        command == 3 && after.active > s.active ==> forall|k: u8| #[trigger]
            s.shells.contains_key(k) ==> k <= s.active || after.active <= k,
        command == 3 && after.active <= s.active ==> forall|k: u8| #[trigger]
            s.shells.contains_key(k) ==> after.active <= k <= s.active,
        command == 4 && after.active < s.active ==> forall|k: u8| #[trigger]
            s.shells.contains_key(k) ==> s.active <= k || k <= after.active,
        command == 4 && after.active >= s.active ==> forall|k: u8| #[trigger]
            s.shells.contains_key(k) ==> s.active <= k <= after.active,
{
    let keys = s.shells.dom();
    assert(keys.contains(s.active) && keys.contains(after.active));
    assert forall|k: u8| #[trigger] s.shells.contains_key(k) implies keys.contains(k) by {}
}

/// Any other command is ignored, and with a single session there is none to switch to.
pub proof fn law_ignored_commands(s: Sessions, command: u8, after: Sessions, action: ManagerAction)
    requires
        s.wf(),
        s.handled(command, after, action),
        command == 0 || command > 4 || ((command == 3 || command == 4) && s.shells.len() == 1),
    ensures
        after == s,
        action == ManagerAction::Ignore,
{
}

/// At first there is one session, with id 0 and no shell; it is active.
pub proof fn law_initial_session(id: u8)
    ensures
        Sessions::initial().shells.contains_key(id) <==> id == 0,
        Sessions::initial().shells[0] == 0,
        Sessions::initial().active == 0,
        Sessions::initial().next_id == 1,
        Sessions::initial().generation == 0,
{
}

/// Noting a shell changes it for a live session alone, and nothing else. Publishing counts
/// the generation up, from 255 to 0.
pub proof fn law_noted_and_bumped(s: Sessions, id: u8, tid: usize, k: u8)
    ensures
        s.noted(id, tid).shells.contains_key(k) <==> s.shells.contains_key(k),
        s.shells.contains_key(k) ==> s.noted(id, tid).shells[k] == if k == id {
            tid
        } else {
            s.shells[k]
        },
        s.noted(id, tid).active == s.active,
        s.noted(id, tid).next_id == s.next_id,
        s.noted(id, tid).generation == s.generation,
        s.bumped().shells == s.shells,
        s.bumped().active == s.active,
        s.bumped().next_id == s.next_id,
        s.bumped().generation == if s.generation == 255 {
            0
        } else {
            s.generation + 1
        },
{
}

/// A record tells the truth about the sessions: which is active, how many there are, and
/// which of them live.
pub proof fn law_published_record(s: Sessions, record: ManagerCtl, id: u8)
    requires
        s.published_as(record),
    ensures
        record.version != 0,
        record.active_id == s.active,
        record.session_count == s.shells.len(),
        record.generation == s.generation,
        record.lives(id) <==> s.shells.contains_key(id),
{
}

} // verus!
