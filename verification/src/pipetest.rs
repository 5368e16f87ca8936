//! A program that tries out pipes and the ownership of handles. This module decides
//! what a try has shown and words the report on it.
//!
//! Whether handles leak is told without using them all up: the lowest free handle is
//! given out first, so opening one object and closing it again tells how many are in
//! use below it. Handles that a process left behind would push it up.

use vstd::prelude::*;
use vstd::string::*;
use vstd::utf8::*;

use crate::kernel::open_objects::{errno_text, Errno};
use crate::text::{decimal, push_decimal, utf8_text};

verus! {

/// Number of handles that a child leaves open.
pub const LEAK_COUNT: usize = 64;

/// By how much the lowest free handle may move for other reasons.
pub const LEAK_THRESHOLD: usize = 16;

/// Number of programs that are started one after the other.
pub const RESTARTS: usize = 50;

/// Under this key a child finds the handle of its parent.
pub const HANDLE_ENV_KEY: &'static str = "D3OS_TEST_HANDLE";

/// What the program does when it was started as its own child.
#[derive(Copy, Clone, Debug, PartialEq, Eq, Structural)]
pub enum ChildRole {
    /// Open handles and leave them open.
    Leak,
    /// Write to a pipe and leave it open.
    Writer,
    /// Open a pipe for reading and leave it open.
    Reader,
    /// Use a handle of the parent.
    Foreign,
}

/// The role that an argument stands for.
pub open spec fn role_of(argument: Seq<char>) -> Option<ChildRole> {
    if argument == "child-leak"@ {
        Some(ChildRole::Leak)
    } else if argument == "child-writer"@ {
        Some(ChildRole::Writer)
    } else if argument == "child-reader"@ {
        Some(ChildRole::Reader)
    } else if argument == "child-foreign"@ {
        Some(ChildRole::Foreign)
    } else {
        None
    }
}

/// The role that an argument stands for, if it is one.
pub fn child_dispatch(role: &str) -> (r: Option<ChildRole>)
    ensures
        r == role_of(role@),
{
    let role = role.to_owned();
    if role == "child-leak".to_owned() {
        Some(ChildRole::Leak)
    } else if role == "child-writer".to_owned() {
        Some(ChildRole::Writer)
    } else if role == "child-reader".to_owned() {
        Some(ChildRole::Reader)
    } else if role == "child-foreign".to_owned() {
        Some(ChildRole::Foreign)
    } else {
        None
    }
}

/// What making the pipe gave.
#[derive(Copy, Clone, Debug, PartialEq, Eq, Structural)]
pub enum PipeMade {
    Created,
    AlreadyExists,
    Failed(Errno),
}

/// What making the pipe gave. That it is already there is no failure.
pub fn pipe_made(result: Result<usize, Errno>) -> (r: PipeMade)
    ensures
        r == (match result {
            Ok(_) => PipeMade::Created,
            Err(e) => if e == Errno::EEXIST {
                PipeMade::AlreadyExists
            } else {
                PipeMade::Failed(e)
            },
        }),
{
    match result {
        Ok(_) => PipeMade::Created,
        Err(e) => if e == Errno::EEXIST {
            PipeMade::AlreadyExists
        } else {
            PipeMade::Failed(e)
        },
    }
}

/// By how much the lowest free handle went up.
pub open spec fn drift(base: usize, after: usize) -> nat {
    if base < after {
        (after - base) as nat
    } else {
        0
    }
}

/// The numbers of a report: before, after, and the difference.
pub open spec fn slots_text(base: usize, after: usize) -> Seq<char> {
    "base="@ + decimal(base as nat) + ", after="@ + decimal(after as nat) + ", delta="@ + decimal(
        drift(base, after),
    ) + ")"@
}

fn push_slots(line: &mut String, base: usize, after: usize)
    ensures
        final(line)@ == old(line)@ + slots_text(base, after),
{
    let delta: usize = if base < after {
        after - base
    } else {
        0
    };
    line.push_str("base=");
    push_decimal(line, base as u64);
    line.push_str(", after=");
    push_decimal(line, after as u64);
    line.push_str(", delta=");
    push_decimal(line, delta as u64);
    line.push_str(")");
    proof {
        assert(line@ =~= old(line)@ + slots_text(base, after));
    }
}

/// Whether the drift shows a leak.
pub fn leaks(base: usize, after: usize) -> (r: bool)
    ensures
        r == (drift(base, after) > LEAK_THRESHOLD),
{
    base < after && after - base > LEAK_THRESHOLD
}

/// The report on a child that left its handles open.
pub fn exit_report(base: usize, after: usize) -> (r: String)
    ensures
        r@ == (if drift(base, after) <= LEAK_THRESHOLD {
            "TEST4: exit frees owned handles OK ("@
        } else {
            "TEST4: FAIL exit leaked handles ("@
        }) + slots_text(base, after),
{
    let mut line = if leaks(base, after) {
        "TEST4: FAIL exit leaked handles (".to_owned()
    } else {
        "TEST4: exit frees owned handles OK (".to_owned()
    };
    push_slots(&mut line, base, after);
    line
}

/// The report on many programs that were started one after the other.
pub fn soak_report(launched: usize, base: usize, after: usize) -> (r: String)
    ensures
        r@ == (if drift(base, after) <= LEAK_THRESHOLD {
            "TEST4: restart soak bounded OK ("@
        } else {
            "TEST4: FAIL restart soak leaked ("@
        }) + decimal(launched as nat) + " spawns, "@ + slots_text(base, after),
{
    let mut line = if leaks(base, after) {
        "TEST4: FAIL restart soak leaked (".to_owned()
    } else {
        "TEST4: restart soak bounded OK (".to_owned()
    };
    push_decimal(&mut line, launched as u64);
    line.push_str(" spawns, ");
    push_slots(&mut line, base, after);
    line
}

/// A result as it is shown.
pub open spec fn result_text(result: Result<usize, Errno>) -> Seq<char> {
    match result {
        Ok(n) => "Ok("@ + decimal(n as nat) + ")"@,
        Err(e) => "Err("@ + errno_text(e) + ")"@,
    }
}

fn push_result(line: &mut String, result: Result<usize, Errno>)
    ensures
        final(line)@ == old(line)@ + result_text(result),
{
    match result {
        Ok(n) => {
            line.push_str("Ok(");
            push_decimal(line, n as u64);
        },
        Err(e) => {
            line.push_str("Err(");
            line.push_str(e.name());
        },
    }
    line.push_str(")");
    proof {
        assert(line@ =~= old(line)@ + result_text(result));
    }
}

/// The handle was rejected as none of the caller's.
pub open spec fn is_rejected(result: Result<usize, Errno>) -> bool {
    result == Err::<usize, Errno>(Errno::EINVALH)
}

fn rejected(result: Result<usize, Errno>) -> (r: bool)
    ensures
        r == is_rejected(result),
{
    match result {
        Ok(_) => false,
        Err(e) => e == Errno::EINVALH,
    }
}

/// The report of a child that used a handle of its parent: reading, seeking and
/// closing all have to be rejected.
pub fn foreign_report(
    read: Result<usize, Errno>,
    seek: Result<usize, Errno>,
    close: Result<usize, Errno>,
) -> (r: String)
    ensures
        r@ == (if is_rejected(read) && is_rejected(seek) && is_rejected(close) {
            "TEST4: child rejected on foreign read/seek/close OK"@
        } else {
            "TEST4: FAIL foreign not rejected: read="@ + result_text(read) + " seek="@
                + result_text(seek) + " close="@ + result_text(close)
        }),
{
    if rejected(read) && rejected(seek) && rejected(close) {
        return "TEST4: child rejected on foreign read/seek/close OK".to_owned();
    }
    let mut line = "TEST4: FAIL foreign not rejected: read=".to_owned();
    push_result(&mut line, read);
    line.push_str(" seek=");
    push_result(&mut line, seek);
    line.push_str(" close=");
    push_result(&mut line, close);
    line
}

/// Entries of an environment as texts.
pub open spec fn entry_texts(entries: Seq<String>) -> Seq<Seq<char>> {
    Seq::new(entries.len(), |i: int| entries[i]@)
}

/// The environment of a child that is to use a handle of its parent: the handle, and
/// the session of the parent, if it has one.
pub open spec fn foreign_entries(
    handle: usize,
    session_key: Seq<char>,
    session: Option<Seq<char>>,
) -> Seq<Seq<char>> {
    let first = HANDLE_ENV_KEY@ + "="@ + decimal(handle as nat);
    match session {
        Some(id) => seq![first, session_key + "="@ + id],
        None => seq![first],
    }
}

/// The environment of a child that is to use a handle of its parent.
pub fn foreign_env(handle: usize, session_key: &str, session: Option<&str>) -> (r: Vec<String>)
    ensures
        entry_texts(r@) == foreign_entries(
            handle,
            session_key@,
            match session {
                Some(id) => Some(id@),
                None => None,
            },
        ),
{
    let mut entries: Vec<String> = Vec::new();
    let mut first = HANDLE_ENV_KEY.to_owned();
    first.push_str("=");
    push_decimal(&mut first, handle as u64);
    entries.push(first);
    if let Some(id) = session {
        let mut second = session_key.to_owned();
        second.push_str("=");
        second.push_str(id);
        entries.push(second);
    }
    proof {
        assert(entry_texts(entries@) =~= foreign_entries(
            handle,
            session_key@,
            match session {
                Some(id) => Some(id@),
                None => None,
            },
        ));
    }
    entries
}

/// The report on reading from a pipe after its last writer has exited: there has to
/// be nothing more to read.
pub fn eof_report(result: Result<usize, Errno>, marker: usize) -> (r: String)
    ensures
        r@ == match result {
            Ok(n) => if n == 0 {
                "TEST4: reader EOF after writer exit OK (marker="@ + decimal(marker as nat)
                    + " bytes)"@
            } else {
                "TEST4: FAIL unexpected "@ + decimal(n as nat) + " bytes after writer exit"@
            },
            Err(e) => "TEST4: FAIL read error after writer exit: "@ + errno_text(e),
        },
{
    match result {
        Ok(n) => if n == 0 {
            let mut line = "TEST4: reader EOF after writer exit OK (marker=".to_owned();
            push_decimal(&mut line, marker as u64);
            line.push_str(" bytes)");
            line
        } else {
            let mut line = "TEST4: FAIL unexpected ".to_owned();
            push_decimal(&mut line, n as u64);
            line.push_str(" bytes after writer exit");
            line
        },
        Err(e) => {
            let mut line = "TEST4: FAIL read error after writer exit: ".to_owned();
            line.push_str(e.name());
            line
        },
    }
}

/// The report on writing to a pipe after its last reader has exited: the write has to
/// fail because nobody reads.
pub fn epipe_exit_report(result: Result<usize, Errno>) -> (r: String)
    ensures
        r@ == match result {
            Ok(n) => "TEST4: FAIL wrote "@ + decimal(n as nat) + " bytes after reader exit"@,
            Err(e) => if e == Errno::EPIPE {
                "TEST4: writer EPIPE after reader exit OK"@
            } else {
                "TEST4: FAIL unexpected error after reader exit: "@ + errno_text(e)
            },
        },
{
    match result {
        Ok(n) => {
            let mut line = "TEST4: FAIL wrote ".to_owned();
            push_decimal(&mut line, n as u64);
            line.push_str(" bytes after reader exit");
            line
        },
        Err(e) => if e == Errno::EPIPE {
            "TEST4: writer EPIPE after reader exit OK".to_owned()
        } else {
            let mut line = "TEST4: FAIL unexpected error after reader exit: ".to_owned();
            line.push_str(e.name());
            line
        },
    }
}

/// The report on writing to a pipe after its last reader has closed it.
pub fn epipe_report(result: Result<usize, Errno>) -> (r: String)
    ensures
        r@ == match result {
            Ok(n) => "TEST3: writer unexpectedly wrote "@ + decimal(n as nat) + " bytes"@,
            Err(e) => if e == Errno::EPIPE {
                "TEST3: writer got EPIPE as expected"@
            } else {
                "TEST3: writer got unexpected error: "@ + errno_text(e)
            },
        },
{
    match result {
        Ok(n) => {
            let mut line = "TEST3: writer unexpectedly wrote ".to_owned();
            push_decimal(&mut line, n as u64);
            line.push_str(" bytes");
            line
        },
        Err(e) => if e == Errno::EPIPE {
            "TEST3: writer got EPIPE as expected".to_owned()
        } else {
            let mut line = "TEST3: writer got unexpected error: ".to_owned();
            line.push_str(e.name());
            line
        },
    }
}

/// What a reader has received so far.
pub struct Received {
    data: Vec<u8>,
}

/// What a reader does after a read.
#[derive(Copy, Clone, Debug, PartialEq, Eq, Structural)]
pub enum ReadStep {
    /// Read on.
    ReadOn,
    /// All writers have closed the pipe.
    End,
    /// The read failed.
    Failed(Errno),
}

impl View for Received {
    type V = Seq<u8>;

    closed spec fn view(&self) -> Seq<u8> {
        self.data@
    }
}

impl Received {
    /// Nothing yet.
    pub fn new() -> (r: Received)
        ensures
            r@ == Seq::<u8>::empty(),
    {
        Received { data: Vec::new() }
    }

    /// Take in what a read into `buffer` gave.
    pub fn take(&mut self, buffer: &[u8], result: Result<usize, Errno>) -> (r: ReadStep)
        requires
            result matches Ok(n) ==> n <= buffer@.len(),
        ensures
            match result {
                Ok(n) => final(self)@ == old(self)@ + buffer@.take(n as int) && r == (if n == 0 {
                    ReadStep::End
                } else {
                    ReadStep::ReadOn
                }),
                Err(e) => final(self)@ == old(self)@ && r == ReadStep::Failed(e),
            },
    {
        let n: usize = match result {
            Ok(n) => n,
            Err(e) => {
                return ReadStep::Failed(e);
            },
        };
        let part = vstd::slice::slice_subrange(buffer, 0, n);
        self.data.extend_from_slice(part);
        proof {
            assert(self@ =~= old(self)@ + buffer@.take(n as int));
        }
        if n == 0 {
            ReadStep::End
        } else {
            ReadStep::ReadOn
        }
    }

    /// What was received.
    pub fn bytes(&self) -> (r: &[u8])
        ensures
            r@ == self@,
    {
        self.data.as_slice()
    }

    /// The report on what was received, unless it is no text.
    pub fn report(&self, label: &str) -> (r: Option<String>)
        ensures
            r is Some <==> valid_utf8(self@),
            r matches Some(line) ==> line@ == "TEST3: "@ + label@ + " received \""@ + decode_utf8(
                self@,
            ) + "\""@,
    {
        let text = match utf8_text(self.data.as_slice()) {
            Some(text) => text,
            None => {
                return None;
            },
        };
        let mut line = "TEST3: ".to_owned();
        line.push_str(label);
        line.push_str(" received \"");
        line.push_str(text);
        line.push_str("\"");
        Some(line)
    }
}

/// How much of the data a writer has written.
#[derive(Copy, Clone, Debug, PartialEq, Eq, Structural)]
pub struct Written {
    pub total: usize,
    pub written: usize,
    pub failed: Option<Errno>,
}

impl Written {
    /// No more than everything was written.
    pub open spec fn wf(self) -> bool {
        self.written <= self.total
    }

    /// Nothing yet.
    pub fn new(total: usize) -> (r: Written)
        ensures
            r == (Written { total, written: 0, failed: None }),
            r.wf(),
    {
        Written { total, written: 0, failed: None }
    }

    /// Where the next write starts, if there is one: until everything was written or a
    /// write failed.
    pub fn next(&self) -> (r: Option<usize>)
        requires
            self.wf(),
        ensures
            r == (if self.failed is None && self.written < self.total {
                Some(self.written)
            } else {
                None
            }),
    {
        if self.failed.is_none() && self.written < self.total {
            Some(self.written)
        } else {
            None
        }
    }

    /// Take note of what a write of the rest gave.
    pub fn take(&mut self, result: Result<usize, Errno>)
        requires
            old(self).wf(),
            result matches Ok(n) ==> n <= old(self).total - old(self).written,
        ensures
            final(self).wf(),
            *final(self) == (match result {
                Ok(n) => Written { written: (old(self).written + n) as usize, ..*old(self) },
                Err(e) => Written { failed: Some(e), ..*old(self) },
            }),
    {
        match result {
            Ok(n) => {
                self.written = self.written + n;
            },
            Err(e) => {
                self.failed = Some(e);
            },
        }
    }

    /// The report on what was written.
    pub fn report(&self, label: &str) -> (r: String)
        ensures
            r@ == "TEST3: "@ + label@ + " wrote "@ + decimal(self.written as nat) + " bytes"@,
    {
        let mut line = "TEST3: ".to_owned();
        line.push_str(label);
        line.push_str(" wrote ");
        push_decimal(&mut line, self.written as u64);
        line.push_str(" bytes");
        line
    }
}

/// Each role has one argument that stands for it, and no other argument stands for any.
pub proof fn law_roles(argument: Seq<char>)
    ensures
        role_of(argument) == Some(ChildRole::Leak) <==> argument == "child-leak"@,
        role_of(argument) == Some(ChildRole::Writer) <==> argument == "child-writer"@,
        role_of(argument) == Some(ChildRole::Reader) <==> argument == "child-reader"@,
        role_of(argument) == Some(ChildRole::Foreign) <==> argument == "child-foreign"@,
{
    reveal_strlit("child-leak");
    reveal_strlit("child-writer");
    reveal_strlit("child-reader");
    reveal_strlit("child-foreign");
    assert("child-leak"@[6] != "child-writer"@[6]);
    assert("child-leak"@[6] != "child-reader"@[6]);
    assert("child-leak"@[6] != "child-foreign"@[6]);
    assert("child-writer"@[6] != "child-reader"@[6]);
    assert("child-writer"@[6] != "child-foreign"@[6]);
    assert("child-reader"@[6] != "child-foreign"@[6]);
}

/// Handles that leaked are counted, and handles that became free are not counted against
/// them.
pub proof fn law_drift(base: usize, after: usize)
    ensures
        after >= base ==> base + drift(base, after) == after,
        after <= base ==> drift(base, after) == 0,
{
}

} // verus!
