//! The endpoints through which a process talks to its session. Each one is opened
//! when it is first needed and then kept open, so that the session's pipes are not
//! reset between two uses.

use vstd::prelude::*;
use vstd::string::*;
use vstd::utf8::*;

use crate::kernel::open_objects::OpenOptions;
use crate::session::path::Session;

verus! {

/// Number of bytes that a line is read into.
pub const LINE_BUFFER: usize = 128;

/// An endpoint of a session.
#[derive(Copy, Clone, Debug, PartialEq, Eq, Structural)]
pub enum Endpoint {
    /// The control record.
    Control,
    /// Input that a reader waits for.
    BlockingInput,
    /// Input that a reader polls.
    PolledInput,
    /// Output.
    Output,
}

/// How an endpoint is opened.
pub open spec fn options_of(endpoint: Endpoint) -> OpenOptions {
    OpenOptions {
        read_only: endpoint == Endpoint::BlockingInput || endpoint == Endpoint::PolledInput,
        write_only: endpoint == Endpoint::Output,
        read_write: endpoint == Endpoint::Control,
        directory: false,
        nonblock: endpoint == Endpoint::PolledInput,
    }
}

/// The path of an endpoint.
pub open spec fn path_of(session: &Session, endpoint: Endpoint) -> Seq<char> {
    match endpoint {
        Endpoint::Control => session.base() + "/ctl"@,
        Endpoint::Output => session.base() + "/out"@,
        _ => session.base() + "/in"@,
    }
}

impl Endpoint {
    /// How the endpoint is opened.
    pub fn options(self) -> (r: OpenOptions)
        ensures
            r == options_of(self),
    {
        OpenOptions {
            read_only: self == Endpoint::BlockingInput || self == Endpoint::PolledInput,
            write_only: self == Endpoint::Output,
            read_write: self == Endpoint::Control,
            directory: false,
            nonblock: self == Endpoint::PolledInput,
        }
    }

    /// The path of the endpoint.
    pub fn path(self, session: &Session) -> (r: String)
        ensures
            r@ == path_of(session, self),
    {
        match self {
            Endpoint::Control => session.ctl_path(),
            Endpoint::Output => session.out_path(),
            Endpoint::BlockingInput => session.in_path(),
            Endpoint::PolledInput => session.in_path(),
        }
    }

    /// The input endpoint for a reader that polls, or for one that waits.
    pub fn input(nonblock: bool) -> (r: Endpoint)
        ensures
            r == (if nonblock {
                Endpoint::PolledInput
            } else {
                Endpoint::BlockingInput
            }),
    {
        if nonblock {
            Endpoint::PolledInput
        } else {
            Endpoint::BlockingInput
        }
    }
}

/// What a handle is after an attempt to open it, which only matters where there was
/// none yet.
pub open spec fn kept(handle: Option<usize>, opened: Option<usize>) -> Option<usize> {
    match handle {
        Some(handle) => Some(handle),
        None => opened,
    }
}

fn keep(handle: Option<usize>, opened: Option<usize>) -> (r: Option<usize>)
    ensures
        r == kept(handle, opened),
{
    match handle {
        Some(handle) => Some(handle),
        None => opened,
    }
}

/// The handles that a process reads its input through.
#[derive(Copy, Clone, Debug, PartialEq, Eq, Structural)]
pub struct InputEndpoints {
    /// The control record.
    pub ctl: Option<usize>,
    /// For lines.
    pub in_blocking: Option<usize>,
    /// For keys.
    pub in_nonblock: Option<usize>,
}

impl InputEndpoints {
    /// The handle of an endpoint. Output is not among them.
    pub open spec fn at(self, endpoint: Endpoint) -> Option<usize> {
        match endpoint {
            Endpoint::Control => self.ctl,
            Endpoint::BlockingInput => self.in_blocking,
            Endpoint::PolledInput => self.in_nonblock,
            Endpoint::Output => None,
        }
    }

    /// Nothing is open yet.
    pub fn new() -> (r: InputEndpoints)
        ensures
            r == (InputEndpoints { ctl: None, in_blocking: None, in_nonblock: None }),
    {
        InputEndpoints { ctl: None, in_blocking: None, in_nonblock: None }
    }

    /// The handle of an endpoint, if it is open.
    pub fn handle(&self, endpoint: Endpoint) -> (r: Option<usize>)
        ensures
            r == self.at(endpoint),
    {
        match endpoint {
            Endpoint::Control => self.ctl,
            Endpoint::BlockingInput => self.in_blocking,
            Endpoint::PolledInput => self.in_nonblock,
            Endpoint::Output => None,
        }
    }

    /// Take note of what opening an endpoint gave, and return its handle.
    pub fn opened(&mut self, endpoint: Endpoint, opened: Option<usize>) -> (r: Option<usize>)
        requires
            endpoint != Endpoint::Output,
        ensures
            r == kept(old(self).at(endpoint), opened),
            final(self).at(endpoint) == r,
            forall|other: Endpoint|
                other != endpoint ==> #[trigger] final(self).at(other) == old(self).at(other),
    {
        let handle = keep(self.handle(endpoint), opened);
        match endpoint {
            Endpoint::Control => {
                self.ctl = handle;
            },
            Endpoint::BlockingInput => {
                self.in_blocking = handle;
            },
            Endpoint::PolledInput => {
                self.in_nonblock = handle;
            },
            Endpoint::Output => {},
        }
        handle
    }
}

/// The text that `String::from_utf8_lossy` makes of bytes.
pub uninterp spec fn lossy_text(bytes: Seq<u8>) -> Seq<char>;

/// `String::from_utf8_lossy`: bytes that are valid UTF-8 are the text that they
/// encode; in others the invalid parts are replaced. What stands for which part is
/// not stated.
#[verifier::external_body]
fn from_utf8_lossy(bytes: &[u8]) -> (r: String)
    ensures
        r@ == lossy_text(bytes@),
        valid_utf8(bytes@) ==> r@ == decode_utf8(bytes@),
{
    String::from_utf8_lossy(bytes).into_owned()
}

/// The line that a read put at the front of a buffer. A read that failed counts as
/// one that gave nothing.
pub fn line_read(buffer: &[u8], read_bytes: Option<usize>) -> (r: String)
    requires
        read_bytes matches Some(n) ==> n <= buffer@.len(),
    ensures
        match read_bytes {
            Some(n) => {
                &&& r@ == lossy_text(buffer@.take(n as int))
                &&& valid_utf8(buffer@.take(n as int)) ==> r@ == decode_utf8(
                    buffer@.take(n as int),
                )
            },
            None => r@ == Seq::<char>::empty(),
        },
{
    let n: usize = match read_bytes {
        Some(n) => n,
        None => {
            return String::new();
        },
    };
    let line = vstd::slice::slice_subrange(buffer, 0, n);
    proof {
        assert(line@ =~= buffer@.take(n as int));
    }
    from_utf8_lossy(line)
}

/// What printing a text takes next.
#[derive(Copy, Clone, Debug, PartialEq, Eq, Structural)]
pub enum PrintStep {
    /// Nothing: there is nothing to write.
    Done,
    /// The output has to be opened first.
    Open,
    /// The text goes to this handle.
    Write(usize),
}

/// Writes a process's output. The output is opened with the first text, so that a
/// process that never prints does not wait for a reader.
#[derive(Copy, Clone, Debug, PartialEq, Eq, Structural)]
pub struct Writer {
    pub out: Option<usize>,
}

impl Writer {
    /// Nothing is open yet.
    pub fn new() -> (r: Writer)
        ensures
            r == (Writer { out: None }),
    {
        Writer { out: None }
    }

    /// Take note of what opening the output gave, and return its handle.
    pub fn opened(&mut self, opened: Option<usize>) -> (r: Option<usize>)
        ensures
            r == kept(old(self).out, opened),
            *final(self) == (Writer { out: r }),
    {
        self.out = keep(self.out, opened);
        self.out
    }
}

/// What printing a text takes. An empty text is not written at all, since a write of
/// no bytes is refused.
pub fn print(writer: &Writer, text: &str) -> (r: PrintStep)
    ensures
        r == (if text@.len() == 0 {
            PrintStep::Done
        } else {
            match writer.out {
                Some(handle) => PrintStep::Write(handle),
                None => PrintStep::Open,
            }
        }),
{
    if text.unicode_len() == 0 {
        return PrintStep::Done;
    }
    match writer.out {
        Some(handle) => PrintStep::Write(handle),
        None => PrintStep::Open,
    }
}

/// An endpoint that is open stays open under the same handle, whatever further
/// attempts to open it give.
pub proof fn law_opened_once(handle: Option<usize>, first: Option<usize>, second: Option<usize>)
    ensures
        first is Some || handle is Some ==> kept(kept(handle, first), second) == kept(
            handle,
            first,
        ),
{
}

/// A line that was written as text is read back as that text.
pub proof fn law_line_reads_back(line: Seq<char>)
    ensures
        valid_utf8(encode_utf8(line)),
        decode_utf8(encode_utf8(line)) == line,
{
    encode_utf8_valid_utf8(line);
    encode_utf8_decode_utf8(line);
}

/// Input is opened for reading, output for writing and the control record for both; only
/// the input that is polled does not block, and no endpoint is a directory.
pub proof fn law_endpoint_options(endpoint: Endpoint)
    ensures
        options_of(endpoint).read_only <==> endpoint is BlockingInput || endpoint is PolledInput,
        options_of(endpoint).write_only <==> endpoint is Output,
        options_of(endpoint).read_write <==> endpoint is Control,
        options_of(endpoint).nonblock <==> endpoint is PolledInput,
        !options_of(endpoint).directory,
{
}

/// The endpoints of a session lie in its directory: both inputs are the same file, and
/// input, output and control record are three files.
pub proof fn law_endpoint_paths(session: &Session, endpoint: Endpoint)
    ensures
        ({
            let path = path_of(session, endpoint);
            let base = session.base();
            &&& endpoint is Control ==> path == base + seq!['/', 'c', 't', 'l']
            &&& endpoint is Output ==> path == base + seq!['/', 'o', 'u', 't']
            &&& endpoint is BlockingInput ==> path == base + seq!['/', 'i', 'n']
            &&& endpoint is PolledInput ==> path == base + seq!['/', 'i', 'n']
        }),
{
    reveal_strlit("/ctl");
    reveal_strlit("/out");
    reveal_strlit("/in");
    assert("/ctl"@ =~= seq!['/', 'c', 't', 'l']);
    assert("/out"@ =~= seq!['/', 'o', 'u', 't']);
    assert("/in"@ =~= seq!['/', 'i', 'n']);
}

/// The handle of an endpoint is the one that was kept for it, and no other.
pub proof fn law_handles_by_endpoint(endpoints: InputEndpoints)
    ensures
        endpoints.at(Endpoint::Control) == endpoints.ctl,
        endpoints.at(Endpoint::BlockingInput) == endpoints.in_blocking,
        endpoints.at(Endpoint::PolledInput) == endpoints.in_nonblock,
        endpoints.at(Endpoint::Output) is None,
{
}

} // verus!
