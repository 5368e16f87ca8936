//! The sessions that the emulator shows.
//!
//! The live set that the manager publishes is compared with the sessions at hand:
//! new ones are added, dead ones removed, and then the active one is selected.
//! Output is shown on every session's own screen; only the active one's damage is
//! drawn.

use vstd::prelude::*;
use vstd::std_specs::btree::*;
use vstd::utf8::*;

use std::collections::BTreeMap;

use crate::session::control::{CtlRecord, WaitState};
use crate::session::manager::ManagerCtl;
use crate::session::screen::{echo_feedable, edit_in_view, edit_shown, SessionScreen};
use crate::session::state::lists_keys;
use crate::terminal::ansi::{feedable, tokens_shown, tokens_weighed};
use crate::terminal::model::{no_damage, Damage, Screen, ScreenSize};
use crate::terminal::token::{spelled, Token};
use crate::worker::canonical::{CanonicalAction, Line};
use crate::worker::echo::echo_tokens;

verus! {

broadcast use group_btree_axioms;

/// Bytes read from a session's output at a time.
pub const OUT_READ_CHUNK: usize = 256;

/// Stands for no active session, so that the first record read selects one.
pub const NO_ACTIVE: u8 = 255;

/// What a new record leads to.
pub struct SnapshotEffect {
    /// The sessions that were added, in ascending order. Their endpoints are to
    /// be opened.
    pub added: Vec<u8>,
    /// The sessions that were removed, in ascending order of their ids. Their
    /// handles are to be closed.
    pub removed: Vec<SessionScreen>,
    /// The active session is to be drawn in full.
    pub present: bool,
}

/// What output of a session leads to.
#[derive(Copy, Clone, Debug, PartialEq, Eq, Structural)]
pub enum OutputEffect {
    /// There was no such session, no output, or it went to a session that is not
    /// on screen.
    Quiet,
    /// The active session changed in this way.
    Present(Damage),
    /// The output cannot be shown; nothing changed.
    Refused,
}

/// What an edit leads to.
pub enum EditEffect {
    /// There is no active session.
    NoSession,
    /// The echo cannot be shown; nothing changed.
    Refused,
    /// Draw this damage, if there is any, and send this line, if there is one.
    Done(Option<Damage>, Option<Vec<u8>>),
}

/// A screen with nothing opened, shown or typed.
pub open spec fn is_fresh(screen: SessionScreen, size: ScreenSize) -> bool {
    &&& screen.wf()
    &&& screen.out is None
    &&& screen.ctl is None
    &&& screen.in_writer is None
    &&& screen.seen() == Seq::<u8>::empty()
    &&& screen.screen() == Screen::empty(size)
    &&& screen.line() == (Line { text: Seq::empty(), cursor: 0 })
}

/// The live sessions that are not at hand.
pub open spec fn missing(record: ManagerCtl, at_hand: Set<u8>) -> Set<u8> {
    Set::new(|id: u8| record.lives(id) && !at_hand.contains(id))
}

/// The sessions at hand that do not live.
pub open spec fn stale(record: ManagerCtl, at_hand: Set<u8>) -> Set<u8> {
    Set::new(|id: u8| !record.lives(id) && at_hand.contains(id))
}

/// The active id once the stale sessions are gone.
pub open spec fn active_left(record: ManagerCtl, at_hand: Set<u8>, active: u8) -> u8 {
    if stale(record, at_hand).contains(active) {
        NO_ACTIVE
    } else {
        active
    }
}

/// The record selects another session than the active one that is left.
pub open spec fn selects(record: ManagerCtl, at_hand: Set<u8>, active: u8) -> bool {
    record.active_id != active_left(record, at_hand, active) && record.lives(record.active_id)
}

/// The screens of the listed sessions.
pub open spec fn screens_of(map: Map<u8, SessionScreen>, ids: Seq<u8>) -> Seq<SessionScreen> {
    Seq::new(ids.len(), |i: int| map[ids[i]])
}

/// The sessions at hand.
pub struct SessionMux {
    pub sessions: BTreeMap<u8, SessionScreen>,
    pub active: u8,
    /// Generation of the last record applied, if any was.
    pub last_generation: Option<u8>,
}

impl SessionMux {
    /// All screens are well formed.
    pub open spec fn wf(&self) -> bool {
        forall|id: u8| #[trigger] self.sessions@.contains_key(id) ==> self.sessions@[id].wf()
    }

    /// No session yet.
    pub fn new() -> (r: SessionMux)
        ensures
            r.wf(),
            r.sessions@ == Map::<u8, SessionScreen>::empty(),
            r.active == NO_ACTIVE,
            r.last_generation is None,
    {
        SessionMux { sessions: BTreeMap::new(), active: NO_ACTIVE, last_generation: None }
    }

    /// Apply a record of the manager. A record that is not published, or of the
    /// generation applied last, changes nothing.
    pub fn poll_snapshot(&mut self, record: &ManagerCtl, size: ScreenSize) -> (r: Option<
        SnapshotEffect,
    >)
        requires
            old(self).wf(),
        ensures
            final(self).wf(),
            record.version == 0 || old(self).last_generation == Some(record.generation) ==> {
                &&& r is None
                &&& *final(self) == *old(self)
            },
            record.version != 0 && old(self).last_generation != Some(record.generation) ==> {
                let at_hand = old(self).sessions@.dom();
                &&& r matches Some(effect)
                &&& forall|id: u8| #[trigger]
                    final(self).sessions@.contains_key(id) <==> record.lives(id)
                &&& forall|id: u8| #[trigger]
                    final(self).sessions@.contains_key(id) && at_hand.contains(id)
                        ==> final(self).sessions@[id] == old(self).sessions@[id]
                &&& forall|id: u8| #[trigger]
                    final(self).sessions@.contains_key(id) && !at_hand.contains(id) ==> is_fresh(
                        final(self).sessions@[id],
                        size,
                    )
                &&& final(self).active == if selects(*record, at_hand, old(self).active) {
                    record.active_id
                } else {
                    active_left(*record, at_hand, old(self).active)
                }
                &&& final(self).last_generation == Some(record.generation)
                &&& lists_keys(effect.added@, missing(*record, at_hand), 256)
                &&& exists|gone: Seq<u8>| #[trigger]
                    lists_keys(gone, stale(*record, at_hand), 256) && effect.removed@ == screens_of(
                        old(self).sessions@,
                        gone,
                    )
                &&& effect.present == (selects(*record, at_hand, old(self).active) || missing(
                    *record,
                    at_hand,
                ).contains(old(self).active))
            },
    {
        if !record.is_published() {
            return None;
        }
        if self.last_generation == Some(record.generation) {
            return None;
        }
        let ghost before = self.sessions@;
        let ghost at_hand = before.dom();
        let before_active: u8 = self.active;
        let mut added: Vec<u8> = Vec::new();
        let mut n: u16 = 0;
        while n < 256
            invariant
                n <= 256,
                self.active == old(self).active,
                self.last_generation == old(self).last_generation,
                before == old(self).sessions@,
                at_hand == before.dom(),
                old(self).wf(),
                forall|id: u8| #[trigger]
                    self.sessions@.contains_key(id) <==> (at_hand.contains(id) || (id < n
                        && record.lives(id))),
                forall|id: u8| #[trigger]
                    self.sessions@.contains_key(id) && at_hand.contains(id)
                        ==> self.sessions@[id] == before[id],
                forall|id: u8| #[trigger]
                    self.sessions@.contains_key(id) && !at_hand.contains(id) ==> is_fresh(
                        self.sessions@[id],
                        size,
                    ),
                lists_keys(added@, missing(*record, at_hand), n as int),
            decreases 256 - n,
        {
            let id: u8 = n as u8;
            let ghost listed = added@;
            if record.is_live(id) && !self.sessions.contains_key(&id) {
                let _ = self.sessions.insert(id, SessionScreen::new(size));
                added.push(id);
            }
            proof {
                assert forall|k: u8| #[trigger]
                    missing(*record, at_hand).contains(k) && k < n + 1 implies added@.contains(k) by {
                    if k == id {
                        assert(added@[listed.len() as int] == k);
                    } else {
                        assert(listed.contains(k));
                        let i = choose|i: int| 0 <= i < listed.len() && listed[i] == k;
                        assert(added@[i] == k);
                    }
                }
            }
            n = n + 1;
        }
        let mut removed: Vec<SessionScreen> = Vec::new();
        let ghost mut gone: Seq<u8> = Seq::empty();
        let mut n: u16 = 0;
        while n < 256
            invariant
                n <= 256,
                self.active == if stale(*record, at_hand).contains(old(self).active)
                    && old(self).active < n {
                    NO_ACTIVE
                } else {
                    old(self).active
                },
                self.last_generation == old(self).last_generation,
                before == old(self).sessions@,
                at_hand == before.dom(),
                old(self).wf(),
                forall|id: u8| #[trigger]
                    self.sessions@.contains_key(id) <==> (record.lives(id) || (at_hand.contains(id)
                        && id >= n)),
                forall|id: u8| #[trigger]
                    self.sessions@.contains_key(id) && at_hand.contains(id)
                        ==> self.sessions@[id] == before[id],
                forall|id: u8| #[trigger]
                    self.sessions@.contains_key(id) && !at_hand.contains(id) ==> is_fresh(
                        self.sessions@[id],
                        size,
                    ),
                lists_keys(gone, stale(*record, at_hand), n as int),
                removed@ == screens_of(before, gone),
            decreases 256 - n,
        {
            let id: u8 = n as u8;
            let ghost listed = gone;
            if !record.is_live(id) {
                if let Some(screen) = self.sessions.remove(&id) {
                    removed.push(screen);
                    proof {
                        gone = gone.push(id);
                        assert(removed@ =~= screens_of(before, gone));
                    }
                    // Nothing is to go to a session that is gone.
                    if self.active == id {
                        self.active = NO_ACTIVE;
                    }
                }
            }
            proof {
                assert forall|k: u8| #[trigger]
                    stale(*record, at_hand).contains(k) && k < n + 1 implies gone.contains(k) by {
                    if k == id {
                        assert(gone[listed.len() as int] == k);
                    } else {
                        assert(listed.contains(k));
                        let i = choose|i: int| 0 <= i < listed.len() && listed[i] == k;
                        assert(gone[i] == k);
                    }
                }
            }
            n = n + 1;
        }
        let mut present = false;
        let mut i: usize = 0;
        while i < added.len()
            invariant
                i <= added@.len(),
                present == exists|k: int| 0 <= k < i && added@[k] == before_active,
            decreases added@.len() - i,
        {
            if added[i] == before_active {
                present = true;
            }
            i = i + 1;
        }
        proof {
            let lacking = missing(*record, at_hand);
            if present {
                let k = choose|k: int| 0 <= k < added@.len() && added@[k] == before_active;
                assert(lacking.contains(added@[k]));
            }
            if lacking.contains(before_active) {
                assert(added@.contains(before_active));
            }
        }
        if record.active_id != self.active && self.sessions.contains_key(&record.active_id) {
            self.active = record.active_id;
            present = true;
        }
        self.last_generation = Some(record.generation);
        Some(SnapshotEffect { added, removed, present })
    }

    /// Keep the endpoints that were opened for a session.
    pub fn set_endpoints(&mut self, id: u8, out: Option<usize>, ctl: Option<usize>)
        requires
            old(self).wf(),
        ensures
            final(self).wf(),
            final(self).active == old(self).active,
            final(self).last_generation == old(self).last_generation,
            final(self).sessions@ == if old(self).sessions@.contains_key(id) {
                old(self).sessions@.insert(
                    id,
                    (SessionScreen { out, ctl, ..old(self).sessions@[id] }),
                )
            } else {
                old(self).sessions@
            },
    {
        if let Some(mut screen) = self.sessions.remove(&id) {
            screen.out = out;
            screen.ctl = ctl;
            let _ = self.sessions.insert(id, screen);
            proof {
                assert(self.sessions@ =~= old(self).sessions@.insert(id, screen));
            }
        }
    }

    /// The handle from which the output of a session is read.
    pub fn out_handle(&self, id: u8) -> (r: Option<usize>)
        ensures
            r == if self.sessions@.contains_key(id) {
                self.sessions@[id].out
            } else {
                None
            },
    {
        match self.sessions.get(&id) {
            Some(screen) => screen.out,
            None => None,
        }
    }

    /// Show output on a session's screen. Only the active session's damage is to
    /// be drawn.
    pub fn take_output(&mut self, id: u8, bytes: &[u8]) -> (r: OutputEffect)
        requires
            old(self).wf(),
        ensures
            final(self).wf(),
            final(self).active == old(self).active,
            final(self).last_generation == old(self).last_generation,
            final(self).sessions@.dom() == old(self).sessions@.dom(),
            forall|k: u8| #[trigger]
                final(self).sessions@.contains_key(k) && k != id ==> final(self).sessions@[k]
                    == old(self).sessions@[k],
            !old(self).sessions@.contains_key(id) || bytes@.len() == 0 ==> {
                &&& r == OutputEffect::Quiet
                &&& final(self).sessions@ == old(self).sessions@
            },
            old(self).sessions@.contains_key(id) && bytes@.len() > 0 ==> {
                let a = old(self).sessions@[id];
                tokens_weighed(a.seen(), a.screen().place, bytes@)
            },
            old(self).sessions@.contains_key(id) && bytes@.len() > 0 ==> {
                let a = old(self).sessions@[id];
                let b = final(self).sessions@[id];
                if feedable(a.seen(), a.screen().place, bytes@) {
                    &&& tokens_shown(a.seen(), a.screen().with_damage(no_damage()), bytes@)
                    &&& b.same_handles(&a)
                    &&& b.line() == a.line()
                    &&& b.seen() == a.seen() + bytes@
                    &&& b.screen() == crate::terminal::ansi::fed(
                        a.seen(),
                        a.screen().with_damage(no_damage()),
                        bytes@,
                    )
                    &&& r == if id == old(self).active {
                        OutputEffect::Present(b.screen().damage)
                    } else {
                        OutputEffect::Quiet
                    }
                } else {
                    r == OutputEffect::Refused && final(self).sessions@ == old(self).sessions@
                }
            },
    {
        if bytes.len() == 0 {
            return OutputEffect::Quiet;
        }
        match self.sessions.remove(&id) {
            Some(mut screen) => {
                let ghost a = screen;
                assert(old(self).sessions@[id].wf());
                let fed = screen.feed_checked(bytes);
                let _ = self.sessions.insert(id, screen);
                proof {
                    assert(self.sessions@ =~= old(self).sessions@.insert(id, screen));
                    assert(self.sessions@.dom() =~= old(self).sessions@.dom());
                    if fed is None {
                        assert(screen == a);
                        assert(self.sessions@ =~= old(self).sessions@);
                    }
                }
                match fed {
                    Some(damage) => {
                        if id == self.active {
                            OutputEffect::Present(damage)
                        } else {
                            OutputEffect::Quiet
                        }
                    },
                    None => OutputEffect::Refused,
                }
            },
            None => {
                proof {
                    assert(self.sessions@ =~= old(self).sessions@);
                }
                OutputEffect::Quiet
            },
        }
    }

    /// The handle from which the active session's control record is read.
    pub fn active_ctl(&self) -> (r: Option<usize>)
        ensures
            r == if self.sessions@.contains_key(self.active) {
                self.sessions@[self.active].ctl
            } else {
                None
            },
    {
        match self.sessions.get(&self.active) {
            Some(screen) => screen.ctl,
            None => None,
        }
    }

    /// Whether the active session's standard input is to be opened for writing:
    /// its application waits and it is not open yet.
    pub fn ensure_active_in_writer(&self, record: Option<CtlRecord>) -> (r: bool)
        ensures
            r == (record matches Some(rec) && rec.wait == WaitState::Waiting
                && self.sessions@.contains_key(self.active)
                && self.sessions@[self.active].in_writer is None),
    {
        match record {
            Some(rec) => {
                if rec.wait != WaitState::Waiting {
                    return false;
                }
                match self.sessions.get(&self.active) {
                    Some(screen) => screen.in_writer.is_none(),
                    None => false,
                }
            },
            None => false,
        }
    }

    /// Keep the handle that was opened for the active session's standard input.
    pub fn set_in_writer(&mut self, handle: Option<usize>)
        requires
            old(self).wf(),
        ensures
            final(self).wf(),
            final(self).active == old(self).active,
            final(self).last_generation == old(self).last_generation,
            final(self).sessions@ == if old(self).sessions@.contains_key(old(self).active) {
                old(self).sessions@.insert(
                    old(self).active,
                    (SessionScreen {
                        in_writer: handle,
                        ..old(self).sessions@[old(self).active]
                    }),
                )
            } else {
                old(self).sessions@
            },
    {
        let id: u8 = self.active;
        if let Some(mut screen) = self.sessions.remove(&id) {
            screen.in_writer = handle;
            let _ = self.sessions.insert(id, screen);
            proof {
                assert(self.sessions@ =~= old(self).sessions@.insert(id, screen));
            }
        }
    }

    /// The handle to which input for the active session is written.
    pub fn deliver(&self) -> (r: Option<usize>)
        ensures
            r == if self.sessions@.contains_key(self.active) {
                self.sessions@[self.active].in_writer
            } else {
                None
            },
    {
        match self.sessions.get(&self.active) {
            Some(screen) => screen.in_writer,
            None => None,
        }
    }

    /// Edit the active session's line.
    pub fn handle_canonical(&mut self, action: CanonicalAction) -> (r: EditEffect)
        requires
            old(self).wf(),
        ensures
            final(self).wf(),
            final(self).active == old(self).active,
            final(self).last_generation == old(self).last_generation,
            final(self).sessions@.dom() == old(self).sessions@.dom(),
            forall|k: u8| #[trigger]
                final(self).sessions@.contains_key(k) && k != old(self).active
                    ==> final(self).sessions@[k] == old(self).sessions@[k],
            !old(self).sessions@.contains_key(old(self).active) ==> r is NoSession
                && final(self).sessions@ == old(self).sessions@,
            old(self).sessions@.contains_key(old(self).active) ==> {
                let a = old(self).sessions@[old(self).active];
                let b = final(self).sessions@[old(self).active];
                let edit = a.line().edited(action);
                if echo_feedable(a.seen(), a.screen(), edit.echo) {
                    &&& b.same_handles(&a)
                    &&& b.line() == edit.line
                    &&& b.seen() == a.seen() + encode_utf8(edit.echo)
                    &&& b.screen() == crate::session::screen::echoed(
                        a.seen(),
                        a.screen(),
                        edit.echo,
                    )
                    &&& r matches EditEffect::Done(damage, submit)
                    &&& damage == if edit.echo.len() == 0 || b.screen().damage == no_damage() {
                        None
                    } else {
                        Some(b.screen().damage)
                    }
                    &&& match (submit, edit.submit) {
                        (Some(bytes), Some(expected)) => bytes@ == expected,
                        (None, None) => true,
                        _ => false,
                    }
                } else {
                    r is Refused && final(self).sessions@ == old(self).sessions@
                }
            },
            old(self).sessions@.contains_key(old(self).active) ==> {
                let a = old(self).sessions@[old(self).active];
                let b = final(self).sessions@[old(self).active];
                forall|tokens: Seq<Token>, start: int| #[trigger]
                    edit_in_view(a.seen(), a.screen(), a.line(), action, tokens, start) ==> {
                        &&& r is Done
                        &&& edit_shown(a.screen(), a.line(), action, start, b.screen())
                        &&& b.seen() == spelled(tokens + echo_tokens(a.line(), action))
                    }
            },
    {
        let id: u8 = self.active;
        match self.sessions.remove(&id) {
            Some(mut screen) => {
                let ghost a = screen;
                assert(old(self).sessions@[id].wf());
                let done = screen.edit_checked(action);
                let _ = self.sessions.insert(id, screen);
                proof {
                    assert(self.sessions@ =~= old(self).sessions@.insert(id, screen));
                    assert(self.sessions@.dom() =~= old(self).sessions@.dom());
                    if done is None {
                        assert(screen == a);
                        assert(self.sessions@ =~= old(self).sessions@);
                    }
                }
                match done {
                    Some((damage, submit)) => {
                        proof {
                            screen.terminal.lemma_screen_wf();
                        }
                        if damage.is_clean() {
                            EditEffect::Done(None, submit)
                        } else {
                            EditEffect::Done(Some(damage), submit)
                        }
                    },
                    None => EditEffect::Refused,
                }
            },
            None => {
                proof {
                    assert(self.sessions@ =~= old(self).sessions@);
                }
                EditEffect::NoSession
            },
        }
    }

    /// The ids of the sessions in ascending order, for the tabs of the status
    /// bar.
    pub fn tabs(&self) -> (r: Vec<u8>)
        ensures
            lists_keys(r@, self.sessions@.dom(), 256),
    {
        let mut ids: Vec<u8> = Vec::new();
        let mut n: u16 = 0;
        while n < 256
            invariant
                n <= 256,
                lists_keys(ids@, self.sessions@.dom(), n as int),
            decreases 256 - n,
        {
            let id: u8 = n as u8;
            let ghost before = ids@;
            if self.sessions.contains_key(&id) {
                ids.push(id);
            }
            proof {
                assert forall|k: u8| #[trigger]
                    self.sessions@.dom().contains(k) && k < n + 1 implies ids@.contains(k) by {
                    if k == id {
                        assert(ids@[before.len() as int] == k);
                    } else {
                        assert(before.contains(k));
                        let i = choose|i: int| 0 <= i < before.len() && before[i] == k;
                        assert(ids@[i] == k);
                    }
                }
            }
            n = n + 1;
        }
        ids
    }
}

/// The record of a foreground application, if it published one.
pub fn published(record: CtlRecord) -> (r: Option<CtlRecord>)
    ensures
        r == if record.version != 0 {
            Some(record)
        } else {
            None
        },
{
    if record.is_published() {
        Some(record)
    } else {
        None
    }
}

/// Applying a record leaves an active session at hand, or none.
pub proof fn law_active_is_at_hand(record: ManagerCtl, at_hand: Set<u8>, active: u8)
    requires
        at_hand.contains(active) || active == NO_ACTIVE,
    ensures
        ({
            let next = if selects(record, at_hand, active) {
                record.active_id
            } else {
                active_left(record, at_hand, active)
            };
            record.lives(next) || next == NO_ACTIVE
        }),
{
}

/// A record splits the sessions: those that live and are not at hand are missing, those at
/// hand that do not live are stale, and every other is as the record wants it.
pub proof fn law_sessions_by_record(record: ManagerCtl, at_hand: Set<u8>, id: u8)
    ensures
        missing(record, at_hand).contains(id) || at_hand.contains(id) <==> at_hand.contains(id)
            || record.lives(id),
        !(missing(record, at_hand).contains(id) && at_hand.contains(id)),
        stale(record, at_hand).contains(id) ==> at_hand.contains(id) && !record.lives(id),
        (at_hand.contains(id) && !stale(record, at_hand).contains(id)) || missing(
            record,
            at_hand,
        ).contains(id) <==> record.lives(id),
{
}

/// An active session that is at hand stays active as long as it lives. Once it is gone,
/// none is active until the record selects one that lives.
pub proof fn law_active_by_record(record: ManagerCtl, at_hand: Set<u8>, active: u8)
    requires
        at_hand.contains(active),
    ensures
        record.lives(active) ==> active_left(record, at_hand, active) == active,
        !record.lives(active) ==> active_left(record, at_hand, active) == NO_ACTIVE,
        selects(record, at_hand, active) ==> record.lives(record.active_id),
        record.lives(active) && record.active_id == active ==> !selects(record, at_hand, active),
        record.lives(active) && record.lives(record.active_id) && record.active_id != active
            ==> selects(record, at_hand, active),
        !record.lives(active) && record.lives(record.active_id) && record.active_id != NO_ACTIVE
            ==> selects(record, at_hand, active),
{
}

} // verus!
