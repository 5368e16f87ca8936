//! The control record of a session: which input mode the foreground application
//! asked for and whether it waits for input.

use vstd::prelude::*;

verus! {

/// Size of the control record. It is always read and written in full.
pub const CTL_RECORD_SIZE: usize = 32;

/// Version of the record layout. 0 means that nothing was published yet.
pub const CTL_VERSION: u8 = 1;

/// How the terminal treats input.
#[derive(Copy, Clone, Debug, PartialEq, Eq, Structural)]
pub enum TerminalMode {
    /// Lines are edited and echoed by the terminal and handed over whole.
    Canonical,
    /// Keys are decoded and handed over one by one.
    Fluid,
    /// Key events are handed over as they come.
    Raw,
}

impl TerminalMode {
    /// The number that stands for the mode in a record.
    pub open spec fn code(self) -> u8 {
        match self {
            TerminalMode::Canonical => 0,
            TerminalMode::Fluid => 1,
            TerminalMode::Raw => 2,
        }
    }

    /// The mode that a number stands for; an unknown number is canonical mode.
    pub open spec fn of_code(code: u8) -> TerminalMode {
        if code == 1 {
            TerminalMode::Fluid
        } else if code == 2 {
            TerminalMode::Raw
        } else {
            TerminalMode::Canonical
        }
    }

    /// The number that stands for the mode in a record.
    pub fn to_byte(self) -> (r: u8)
        ensures
            r == self.code(),
    {
        match self {
            TerminalMode::Canonical => 0,
            TerminalMode::Fluid => 1,
            TerminalMode::Raw => 2,
        }
    }

    /// The mode that a number stands for.
    pub fn from_byte(b: u8) -> (r: TerminalMode)
        ensures
            r == TerminalMode::of_code(b),
    {
        match b {
            1 => TerminalMode::Fluid,
            2 => TerminalMode::Raw,
            _ => TerminalMode::Canonical,
        }
    }
}

/// Whether the foreground application waits for input.
#[derive(Copy, Clone, Debug, PartialEq, Eq, Structural)]
pub enum WaitState {
    /// It does not.
    Idle,
    /// It is blocked until input comes in the recorded mode.
    Waiting,
}

impl WaitState {
    /// The number that stands for the state in a record.
    pub open spec fn code(self) -> u8 {
        match self {
            WaitState::Idle => 0,
            WaitState::Waiting => 1,
        }
    }

    /// The state that a number stands for; an unknown number is idle.
    pub open spec fn of_code(code: u8) -> WaitState {
        if code == 1 {
            WaitState::Waiting
        } else {
            WaitState::Idle
        }
    }

    /// The number that stands for the state in a record.
    pub fn to_byte(self) -> (r: u8)
        ensures
            r == self.code(),
    {
        match self {
            WaitState::Idle => 0,
            WaitState::Waiting => 1,
        }
    }

    /// The state that a number stands for.
    pub fn from_byte(b: u8) -> (r: WaitState)
        ensures
            r == WaitState::of_code(b),
    {
        match b {
            1 => WaitState::Waiting,
            _ => WaitState::Idle,
        }
    }
}

/// The control record.
#[derive(Copy, Clone, Debug, PartialEq, Eq, Structural)]
pub struct CtlRecord {
    pub version: u8,
    pub mode: TerminalMode,
    pub wait: WaitState,
    pub rows: u16,
    pub cols: u16,
}

impl CtlRecord {
    /// The record before anything was published.
    pub open spec fn unpublished() -> CtlRecord {
        CtlRecord {
            version: 0,
            mode: TerminalMode::Canonical,
            wait: WaitState::Idle,
            rows: 0,
            cols: 0,
        }
    }

    /// The bytes of the record: version, mode and wait state in the first three
    /// bytes, then rows and columns with the low byte first at 4 and 6, zeros
    /// elsewhere.
    pub open spec fn bytes(self) -> Seq<u8> {
        Seq::new(
            CTL_RECORD_SIZE as nat,
            |i: int|
                if i == 0 {
                    self.version
                } else if i == 1 {
                    self.mode.code()
                } else if i == 2 {
                    self.wait.code()
                } else if i == 4 {
                    (self.rows % 256) as u8
                } else if i == 5 {
                    (self.rows / 256) as u8
                } else if i == 6 {
                    (self.cols % 256) as u8
                } else if i == 7 {
                    (self.cols / 256) as u8
                } else {
                    0
                },
        )
    }

    /// The record that bytes stand for. Too few bytes, or a version of 0, stand
    /// for the unpublished record.
    pub open spec fn of_bytes(buf: Seq<u8>) -> CtlRecord {
        if buf.len() < CTL_RECORD_SIZE || buf[0] == 0 {
            CtlRecord::unpublished()
        } else {
            CtlRecord {
                version: buf[0],
                mode: TerminalMode::of_code(buf[1]),
                wait: WaitState::of_code(buf[2]),
                rows: (buf[4] + 256 * buf[5]) as u16,
                cols: (buf[6] + 256 * buf[7]) as u16,
            }
        }
    }

    /// The record before anything was published.
    pub fn empty() -> (r: CtlRecord)
        ensures
            r == CtlRecord::unpublished(),
    {
        CtlRecord {
            version: 0,
            mode: TerminalMode::Canonical,
            wait: WaitState::Idle,
            rows: 0,
            cols: 0,
        }
    }

    /// A published record.
    pub fn new(mode: TerminalMode, wait: WaitState) -> (r: CtlRecord)
        ensures
            r == (CtlRecord { version: CTL_VERSION, mode, wait, rows: 0, cols: 0 }),
    {
        CtlRecord { version: CTL_VERSION, mode, wait, rows: 0, cols: 0 }
    }

    /// Whether a record was published.
    pub fn is_published(&self) -> (r: bool)
        ensures
            r == (self.version != 0),
    {
        self.version != 0
    }

    /// The record as bytes.
    pub fn encode(&self) -> (r: [u8; CTL_RECORD_SIZE])
        ensures
            r@ == self.bytes(),
    {
        let mut buf: [u8; CTL_RECORD_SIZE] = [0u8; CTL_RECORD_SIZE];
        buf[0] = self.version;
        buf[1] = self.mode.to_byte();
        buf[2] = self.wait.to_byte();
        buf[4] = (self.rows % 256) as u8;
        buf[5] = (self.rows / 256) as u8;
        buf[6] = (self.cols % 256) as u8;
        buf[7] = (self.cols / 256) as u8;
        proof {
            assert(buf@ =~= self.bytes());
        }
        buf
    }

    /// The record that bytes stand for.
    pub fn decode(buf: &[u8]) -> (r: CtlRecord)
        ensures
            r == CtlRecord::of_bytes(buf@),
    {
        if buf.len() < CTL_RECORD_SIZE || buf[0] == 0 {
            return CtlRecord::empty();
        }
        CtlRecord {
            version: buf[0],
            mode: TerminalMode::from_byte(buf[1]),
            wait: WaitState::from_byte(buf[2]),
            rows: buf[4] as u16 + 256 * buf[5] as u16,
            cols: buf[6] as u16 + 256 * buf[7] as u16,
        }
    }
}

/// What was read from a control file of `n` bytes: an incomplete record counts as
/// unpublished.
pub fn record_read(buf: &[u8], n: usize) -> (r: CtlRecord)
    ensures
        r == if n < CTL_RECORD_SIZE {
            CtlRecord::unpublished()
        } else {
            CtlRecord::of_bytes(buf@)
        },
{
    if n < CTL_RECORD_SIZE {
        return CtlRecord::empty();
    }
    CtlRecord::decode(buf)
}

/// A published record comes back from its bytes.
pub proof fn law_record_round_trip(record: CtlRecord)
    requires
        record.version != 0,
    ensures
        CtlRecord::of_bytes(record.bytes()) == record,
{
}

/// An unpublished record comes back as unpublished, and so does an empty file.
pub proof fn law_unpublished_reads_back(record: CtlRecord, buf: Seq<u8>)
    requires
        record.version == 0,
        buf.len() < CTL_RECORD_SIZE,
    ensures
        CtlRecord::of_bytes(record.bytes()) == CtlRecord::unpublished(),
        CtlRecord::of_bytes(buf) == CtlRecord::unpublished(),
{
}

/// Each field of a record has its own place in the bytes, and every other byte is 0.
pub proof fn law_record_fields(record: CtlRecord)
    ensures
        ({
            let b = record.bytes();
            &&& b.len() == CTL_RECORD_SIZE
            &&& b[0] == record.version
            &&& b[1] == match record.mode {
                TerminalMode::Canonical => 0u8,
                TerminalMode::Fluid => 1u8,
                TerminalMode::Raw => 2u8,
            }
            &&& (b[2] == 1) == (record.wait is Waiting)
            &&& (b[2] == 0) == (record.wait is Idle)
            &&& b[4] + 0x100 * b[5] == record.rows
            &&& b[6] + 0x100 * b[7] == record.cols
            &&& forall|i: int| (i == 3 || 8 <= i < b.len()) ==> #[trigger] b[i] == 0
        }),
{
}

/// Each field of a published record is read from its own place. A mode that is not known
/// is canonical, a wait state that is not known is idle.
pub proof fn law_record_read(buf: Seq<u8>)
    requires
        buf.len() >= CTL_RECORD_SIZE,
        buf[0] != 0,
    ensures
        ({
            let record = CtlRecord::of_bytes(buf);
            &&& record.version == buf[0]
            &&& (record.mode is Fluid) == (buf[1] == 1)
            &&& (record.mode is Raw) == (buf[1] == 2)
            &&& (record.mode is Canonical) == (buf[1] == 0 || buf[1] > 2)
            &&& (record.wait is Waiting) == (buf[2] == 1)
            &&& record.rows == buf[4] + 0x100 * buf[5]
            &&& record.cols == buf[6] + 0x100 * buf[7]
        }),
{
}

} // verus!
