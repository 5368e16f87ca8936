//! Keys, and the frames in which they travel to an application.

use vstd::prelude::*;

use crate::worker::canonical::CanonicalAction;

verus! {

/// Code of the left arrow key.
pub const ARROW_LEFT: u8 = 101;

/// Code of the right arrow key.
pub const ARROW_RIGHT: u8 = 103;

/// Code of the home key.
pub const HOME: u8 = 32;

/// Code of the end key.
pub const END: u8 = 54;

/// Hotkey F1: toggle between text mode and the window manager.
pub const HKEY_TOGGLE_TERMINAL_WINDOW: u8 = 1;

/// Hotkey F2: create a session.
pub const HKEY_NEW_TAB: u8 = 2;

/// Hotkey F3: close the active session.
pub const HKEY_CLOSE_TAB: u8 = 3;

/// Hotkey F4: switch to the next session.
pub const HKEY_NEXT_TAB: u8 = 4;

/// Hotkey F5: switch to the previous session.
pub const HKEY_PREV_TAB: u8 = 5;

/// A decoded key: a character, or the code of a key that stands for none.
#[derive(Copy, Clone, Debug, PartialEq, Eq, Structural)]
pub enum Key {
    Unicode(char),
    Raw(u8),
}

/// What the first byte of a key frame says about the second.
#[derive(Copy, Clone, Debug, PartialEq, Eq, Structural)]
pub enum DecodedKeyType {
    Unicode,
    RawKey,
}

impl DecodedKeyType {
    /// The number that stands for the type in a frame.
    pub open spec fn code(self) -> u8 {
        match self {
            DecodedKeyType::Unicode => 0,
            DecodedKeyType::RawKey => 1,
        }
    }

    /// The type that a number stands for; an unknown number is a character.
    pub open spec fn of_code(code: u8) -> DecodedKeyType {
        if code == 1 {
            DecodedKeyType::RawKey
        } else {
            DecodedKeyType::Unicode
        }
    }

    /// The number that stands for the type in a frame.
    pub fn to_byte(self) -> (r: u8)
        ensures
            r == self.code(),
    {
        match self {
            DecodedKeyType::Unicode => 0,
            DecodedKeyType::RawKey => 1,
        }
    }

    /// The type that a number stands for.
    pub fn from_byte(b: u8) -> (r: DecodedKeyType)
        ensures
            r == DecodedKeyType::of_code(b),
    {
        match b {
            1 => DecodedKeyType::RawKey,
            _ => DecodedKeyType::Unicode,
        }
    }
}

/// The two bytes in which a key travels in fluid mode. Of a character only the
/// low byte of its code fits.
pub open spec fn fluid_frame(key: Key) -> (u8, u8) {
    match key {
        Key::Unicode(c) => (DecodedKeyType::Unicode.code(), (c as int % 256) as u8),
        Key::Raw(code) => (DecodedKeyType::RawKey.code(), code),
    }
}

/// The key that two bytes stand for in fluid mode.
pub open spec fn fluid_key(frame: (u8, u8)) -> Key {
    match DecodedKeyType::of_code(frame.0) {
        DecodedKeyType::Unicode => Key::Unicode(frame.1 as char),
        DecodedKeyType::RawKey => Key::Raw(frame.1),
    }
}

/// The two bytes in which a key event travels in raw mode, low byte first.
pub open spec fn raw_frame(raw: u16) -> (u8, u8) {
    ((raw % 256) as u8, (raw / 256) as u8)
}

/// The key event that two bytes stand for in raw mode.
pub open spec fn raw_event(frame: (u8, u8)) -> u16 {
    (frame.0 + 256 * frame.1) as u16
}

/// The two bytes in which a key travels in fluid mode.
pub fn buffer_fluid(key: Key) -> (r: (u8, u8))
    ensures
        r == fluid_frame(key),
{
    match key {
        Key::Unicode(c) => (DecodedKeyType::Unicode.to_byte(), (c as u32 % 256) as u8),
        Key::Raw(code) => (DecodedKeyType::RawKey.to_byte(), code),
    }
}

/// The two bytes in which a key event travels in raw mode.
pub fn buffer_raw(raw: u16) -> (r: (u8, u8))
    ensures
        r == raw_frame(raw),
{
    ((raw % 256) as u8, (raw / 256) as u8)
}

/// The key that two bytes stand for in fluid mode.
pub fn read_fluid(frame: (u8, u8)) -> (r: Key)
    ensures
        r == fluid_key(frame),
{
    match DecodedKeyType::from_byte(frame.0) {
        DecodedKeyType::Unicode => Key::Unicode(frame.1 as char),
        DecodedKeyType::RawKey => Key::Raw(frame.1),
    }
}

/// The key event that two bytes stand for in raw mode.
pub fn read_raw(frame: (u8, u8)) -> (r: u16)
    ensures
        r == raw_event(frame),
{
    frame.0 as u16 + 256 * frame.1 as u16
}

/// The edit that a key asks for in canonical mode, if any.
pub open spec fn key_action(key: Key) -> Option<CanonicalAction> {
    match key {
        Key::Raw(code) => if code == ARROW_LEFT {
            Some(CanonicalAction::Left)
        } else if code == ARROW_RIGHT {
            Some(CanonicalAction::Right)
        } else if code == HOME {
            Some(CanonicalAction::Home)
        } else if code == END {
            Some(CanonicalAction::End)
        } else {
            None
        },
        Key::Unicode(c) => if c == '\u{1b}' {
            None
        } else if c == '\n' {
            Some(CanonicalAction::Submit)
        } else if c == '\u{8}' {
            Some(CanonicalAction::Backspace)
        } else if c == '\u{7f}' {
            Some(CanonicalAction::Delete)
        } else {
            Some(CanonicalAction::Insert(c))
        },
    }
}

/// The edit that a key asks for in canonical mode, if any.
pub fn canonical_action(key: Key) -> (r: Option<CanonicalAction>)
    ensures
        r == key_action(key),
{
    match key {
        Key::Raw(code) => {
            if code == ARROW_LEFT {
                Some(CanonicalAction::Left)
            } else if code == ARROW_RIGHT {
                Some(CanonicalAction::Right)
            } else if code == HOME {
                Some(CanonicalAction::Home)
            } else if code == END {
                Some(CanonicalAction::End)
            } else {
                None
            }
        },
        Key::Unicode(c) => {
            if c == '\u{1b}' {
                None
            } else if c == '\n' {
                Some(CanonicalAction::Submit)
            } else if c == '\u{8}' {
                Some(CanonicalAction::Backspace)
            } else if c == '\u{7f}' {
                Some(CanonicalAction::Delete)
            } else {
                Some(CanonicalAction::Insert(c))
            }
        },
    }
}

/// What came of a read that was to complete a key frame.
#[derive(Copy, Clone, Debug, PartialEq, Eq, Structural)]
pub enum FrameStep {
    /// Nothing is buffered: there is no key.
    NoKey,
    /// One byte came; the other has to be read before anything else.
    ReadOn,
    /// The frame is complete.
    Complete(u8, u8),
}

/// A key frame that is being read. Frames are two bytes, but a read may catch a
/// write in between and see only the first; the frame is then completed, so that
/// the stream stays aligned.
pub struct KeyFrame {
    first: Option<u8>,
}

impl KeyFrame {
    /// The byte that has been read.
    pub closed spec fn first(&self) -> Option<u8> {
        self.first
    }

    /// A frame of which nothing has been read.
    pub fn new() -> (r: KeyFrame)
        ensures
            r.first() is None,
    {
        KeyFrame { first: None }
    }

    /// How many bytes are still missing.
    pub fn missing(&self) -> (r: usize)
        ensures
            r == if self.first() is Some {
                1int
            } else {
                2
            },
    {
        if self.first.is_some() {
            1
        } else {
            2
        }
    }

    /// Take in what a read gave. Before the first byte an empty read means that
    /// there is no key; behind it the read is repeated until a byte comes.
    pub fn take(&mut self, bytes: &Vec<u8>) -> (r: FrameStep)
        requires
            bytes@.len() <= if old(self).first() is Some {
                1int
            } else {
                2
            },
        ensures
            match old(self).first() {
                None => if bytes@.len() == 0 {
                    r == FrameStep::NoKey && final(self).first() is None
                } else if bytes@.len() == 1 {
                    r == FrameStep::ReadOn && final(self).first() == Some(bytes@[0])
                } else {
                    r == FrameStep::Complete(bytes@[0], bytes@[1]) && final(self).first() is None
                },
                Some(first) => if bytes@.len() == 0 {
                    r == FrameStep::ReadOn && final(self).first() == Some(first)
                } else {
                    r == FrameStep::Complete(first, bytes@[0]) && final(self).first() is None
                },
            },
    {
        match self.first {
            None => {
                if bytes.len() == 0 {
                    FrameStep::NoKey
                } else if bytes.len() == 1 {
                    self.first = Some(bytes[0]);
                    FrameStep::ReadOn
                } else {
                    FrameStep::Complete(bytes[0], bytes[1])
                }
            },
            Some(first) => {
                if bytes.len() == 0 {
                    FrameStep::ReadOn
                } else {
                    self.first = None;
                    FrameStep::Complete(first, bytes[0])
                }
            },
        }
    }
}

/// A key comes back from its frame, a character if its code fits one byte.
pub proof fn law_fluid_round_trip(key: Key)
    requires
        key matches Key::Unicode(c) ==> c as int <= 255,
    ensures
        fluid_key(fluid_frame(key)) == key,
{
}

/// A key event comes back from its frame.
pub proof fn law_raw_round_trip(raw: u16)
    ensures
        raw_event(raw_frame(raw)) == raw,
{
}

/// A key travels with what it is: a 0 in front of the low byte of a character, a 1 in
/// front of the code of any other key.
pub proof fn law_fluid_bytes(key: Key, frame: (u8, u8))
    ensures
        key matches Key::Unicode(c) ==> fluid_frame(key).0 == 0 && fluid_frame(key).1 as int
            == c as int % 256,
        key matches Key::Raw(code) ==> fluid_frame(key).0 == 1 && fluid_frame(key).1 == code,
        frame.0 == 1 ==> fluid_key(frame) == Key::Raw(frame.1),
        frame.0 != 1 ==> fluid_key(frame) == Key::Unicode(frame.1 as char),
{
}

/// An event travels with its low byte first.
pub proof fn law_raw_bytes(raw: u16, frame: (u8, u8))
    ensures
        raw_frame(raw).0 + 0x100 * raw_frame(raw).1 == raw,
        raw_event(frame) == frame.0 + 0x100 * frame.1,
{
}

/// The four keys that move, the line feed, backspace and delete edit the line; escape does
/// nothing; every other character is inserted as it is, and every other key does nothing.
pub proof fn law_edit_keys(key: Key)
    ensures
        match key {
            Key::Unicode(c) => {
                &&& (key_action(key) is None) == (c as int == 0x1b)
                &&& key_action(key) == Some(CanonicalAction::Submit) <==> c as int == 0x0a
                &&& key_action(key) == Some(CanonicalAction::Backspace) <==> c as int == 0x08
                &&& key_action(key) == Some(CanonicalAction::Delete) <==> c as int == 0x7f
                &&& c as int != 0x1b && c as int != 0x0a && c as int != 0x08 && c as int != 0x7f
                    ==> key_action(key) == Some(CanonicalAction::Insert(c))
            },
            Key::Raw(code) => {
                &&& key_action(key) == Some(CanonicalAction::Left) <==> code == ARROW_LEFT
                &&& key_action(key) == Some(CanonicalAction::Right) <==> code == ARROW_RIGHT
                &&& key_action(key) == Some(CanonicalAction::Home) <==> code == HOME
                &&& key_action(key) == Some(CanonicalAction::End) <==> code == END
                &&& code != ARROW_LEFT && code != ARROW_RIGHT && code != HOME && code != END
                    ==> key_action(key) is None
            },
        },
{
}

} // verus!
