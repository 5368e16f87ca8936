//! Where a session and its manager keep their objects, and how a process learns
//! which session it belongs to.

use vstd::prelude::*;
use vstd::string::*;

use crate::session::manager::MANAGER_ROOT;
use crate::text::{
    decimal,
    lemma_decimal_digits,
    lemma_decimal_value,
    parse_number,
    push_decimal,
    to_number,
    trim,
    trimmed,
};

verus! {

/// Root of the session namespace.
pub const TERM_ROOT: &'static str = "/term";

/// The session of a process that was launched without a descriptor.
pub const DEFAULT_SESSION_ID: usize = 0;

/// Environment key that carries the session descriptor: the session id in
/// decimal.
pub const SESSION_DESCRIPTOR_KEY: &'static str = "D3OS_TERM_SESSION";

/// The directory of the session with this id.
pub open spec fn session_base(id: nat) -> Seq<char> {
    TERM_ROOT@.push('/') + decimal(id)
}

/// The session id that a descriptor stands for: a number, with blanks around it
/// ignored.
pub open spec fn descriptor_id(descriptor: Seq<char>) -> Option<nat> {
    parse_number(trimmed(descriptor), usize::MAX as nat)
}

/// A session, known by its directory.
pub struct Session {
    base: String,
}

impl Session {
    /// The directory of the session.
    pub closed spec fn base(&self) -> Seq<char> {
        self.base@
    }

    /// The directory of the session.
    pub fn base_path(&self) -> (r: &String)
        ensures
            r@ == self.base(),
    {
        &self.base
    }

    /// The session that the current process belongs to, given what its
    /// environment holds under [`SESSION_DESCRIPTOR_KEY`]. Without a descriptor,
    /// or with one that is no number, it is the default session.
    pub fn current(descriptor: Option<String>) -> (r: Session)
        ensures
            r.base() == match descriptor {
                Some(d) => match descriptor_id(d@) {
                    Some(id) => session_base(id),
                    None => session_base(DEFAULT_SESSION_ID as nat),
                },
                None => session_base(DEFAULT_SESSION_ID as nat),
            },
    {
        if let Some(d) = descriptor {
            if let Some(session) = Session::from_descriptor(d.as_str()) {
                return session;
            }
        }
        Session::with_id(DEFAULT_SESSION_ID)
    }

    /// The session with this id.
    pub fn with_id(id: usize) -> (r: Session)
        ensures
            r.base() == session_base(id as nat),
    {
        let mut base = TERM_ROOT.to_owned();
        base.push('/');
        push_decimal(&mut base, id as u64);
        Session { base }
    }

    /// The session that a descriptor names.
    pub fn from_descriptor(descriptor: &str) -> (r: Option<Session>)
        ensures
            match descriptor_id(descriptor@) {
                Some(id) => r matches Some(session) && session.base() == session_base(id),
                None => r is None,
            },
    {
        match to_number(trim(descriptor)) {
            Some(id) => Some(Session::with_id(id)),
            None => None,
        }
    }

    fn child(&self, name: &str) -> (r: String)
        ensures
            r@ == self.base() + name@,
    {
        let mut path = self.base.clone();
        path.push_str(name);
        path
    }

    /// The FIFO of standard input.
    pub fn in_path(&self) -> (r: String)
        ensures
            r@ == self.base() + "/in"@,
    {
        self.child("/in")
    }

    /// The FIFO of standard output.
    pub fn out_path(&self) -> (r: String)
        ensures
            r@ == self.base() + "/out"@,
    {
        self.child("/out")
    }

    /// The file of the control record.
    pub fn ctl_path(&self) -> (r: String)
        ensures
            r@ == self.base() + "/ctl"@,
    {
        self.child("/ctl")
    }
}

/// The file of the manager's control record.
pub fn ctl_path() -> (r: String)
    ensures
        r@ == MANAGER_ROOT@ + "/ctl"@,
{
    let mut path = MANAGER_ROOT.to_owned();
    path.push_str("/ctl");
    path
}

/// The FIFO of the manager's commands.
pub fn cmd_path() -> (r: String)
    ensures
        r@ == MANAGER_ROOT@ + "/cmd"@,
{
    let mut path = MANAGER_ROOT.to_owned();
    path.push_str("/cmd");
    path
}

/// The descriptor of a session, its id in decimal, leads back to that session.
pub proof fn law_descriptor_round_trip(id: usize)
    ensures
        descriptor_id(decimal(id as nat)) == Some(id as nat),
{
    lemma_decimal_digits(id as nat);
    lemma_decimal_value(id as nat);
    crate::text::lemma_trimmed_digits(decimal(id as nat));
}

/// Sessions with different ids have different directories.
pub proof fn law_sessions_apart(a: nat, b: nat)
    requires
        session_base(a) == session_base(b),
    ensures
        a == b,
{
    let prefix = TERM_ROOT@.push('/');
    assert(session_base(a).skip(prefix.len() as int) =~= decimal(a));
    assert(session_base(b).skip(prefix.len() as int) =~= decimal(b));
    lemma_decimal_value(a);
    lemma_decimal_value(b);
}

/// The directory of a session is spelled out: the root, a slash and the id in decimal.
pub proof fn law_session_base(id: nat)
    ensures
        session_base(id) == seq!['/', 't', 'e', 'r', 'm', '/'] + decimal(id),
{
    reveal_strlit("/term");
    assert(TERM_ROOT@.push('/') =~= seq!['/', 't', 'e', 'r', 'm', '/']);
}

/// White space around a descriptor makes no difference.
pub proof fn law_descriptor_blanks(before: Seq<char>, id: usize, after: Seq<char>)
    requires
        forall|i: int| 0 <= i < before.len() ==> crate::text::is_blank(#[trigger] before[i]),
        forall|i: int| 0 <= i < after.len() ==> crate::text::is_blank(#[trigger] after[i]),
    ensures
        descriptor_id(before + decimal(id as nat) + after) == Some(id as nat),
{
    let digits = decimal(id as nat);
    lemma_decimal_digits(id as nat);
    law_descriptor_round_trip(id);
    assert(crate::text::is_digit(digits[0]) && crate::text::is_digit(digits.last()));
    crate::text::law_trimmed(before, digits, after);
}

} // verus!
