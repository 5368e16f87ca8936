//! What becomes of a key event.

use vstd::prelude::*;

use pc_keyboard::layouts::{AnyLayout, De105Key};
use pc_keyboard::{DecodedKey, EventDecoder, HandleControl, KeyEvent};

use crate::session::control::{CtlRecord, TerminalMode, WaitState};
use crate::session::manager::{CLOSE_ACTIVE, NEW_TAB, NEXT_TAB, PREV_TAB};
use crate::worker::canonical::CanonicalAction;
use crate::worker::key::{
    buffer_fluid,
    buffer_raw,
    canonical_action,
    fluid_frame,
    key_action,
    raw_frame,
    Key,
    HKEY_CLOSE_TAB,
    HKEY_NEW_TAB,
    HKEY_NEXT_TAB,
    HKEY_PREV_TAB,
    HKEY_TOGGLE_TERMINAL_WINDOW,
};

verus! {

/// `pc_keyboard::KeyEvent`, a key that was pressed or released.
#[verifier::external_type_specification]
#[verifier::external_body]
pub struct ExKeyEvent(KeyEvent);

/// `pc_keyboard::EventDecoder`, which turns key events into characters.
#[verifier::external_body]
pub struct KeyDecoder {
    decoder: EventDecoder<AnyLayout>,
}

/// The key events that a decoder has processed since it was made.
pub uninterp spec fn events_seen(decoder: KeyDecoder) -> Seq<KeyEvent>;

/// What a decoder for the German 105 key layout, control keys ignored, makes of
/// an event after those it has seen.
pub uninterp spec fn decoded_key(seen: Seq<KeyEvent>, event: KeyEvent) -> Option<Key>;

/// `pc_keyboard::EventDecoder::new` for the German 105 key layout, control keys
/// ignored.
///
/// Claimed: a new decoder has seen no event.
#[verifier::external_body]
fn new_decoder() -> (r: KeyDecoder)
    ensures
        events_seen(r) == Seq::<KeyEvent>::empty(),
{
    KeyDecoder {
        decoder: EventDecoder::new(AnyLayout::De105Key(De105Key), HandleControl::Ignore),
    }
}

/// `pc_keyboard::EventDecoder::process_keyevent`.
///
/// Claimed: the event counts as seen, and the key depends on the events seen
/// before and on this event alone.
#[verifier::external_body]
fn process_keyevent(decoder: &mut KeyDecoder, event: KeyEvent) -> (r: Option<Key>)
    ensures
        events_seen(*final(decoder)) == events_seen(*old(decoder)).push(event),
        r == decoded_key(events_seen(*old(decoder)), event),
{
    match decoder.decoder.process_keyevent(event) {
        Some(DecodedKey::Unicode(c)) => Some(Key::Unicode(c)),
        Some(DecodedKey::RawKey(code)) => Some(Key::Raw(code as u8)),
        None => None,
    }
}

/// What to do about a key event.
#[derive(Copy, Clone, Debug, PartialEq, Eq, Structural)]
pub enum InputAction {
    /// Nothing.
    Ignore,
    /// Switch to the window manager.
    EnterGuiMode,
    /// Send this command to the session manager.
    Command(u8),
    /// Edit the active session's line.
    Edit(CanonicalAction),
    /// Send these two bytes to the active session.
    Deliver(u8, u8),
}

/// The mode in which the foreground application waits for input, if it does.
pub open spec fn waiting_mode(record: Option<CtlRecord>) -> Option<TerminalMode> {
    match record {
        Some(r) => if r.wait == WaitState::Waiting {
            Some(r.mode)
        } else {
            None
        },
        None => None,
    }
}

/// What a hotkey does.
pub open spec fn hotkey_action(key: Key) -> Option<InputAction> {
    match key {
        Key::Raw(code) => if code == HKEY_TOGGLE_TERMINAL_WINDOW {
            Some(InputAction::EnterGuiMode)
        } else if code == HKEY_NEW_TAB {
            Some(InputAction::Command(NEW_TAB))
        } else if code == HKEY_CLOSE_TAB {
            Some(InputAction::Command(CLOSE_ACTIVE))
        } else if code == HKEY_NEXT_TAB {
            Some(InputAction::Command(NEXT_TAB))
        } else if code == HKEY_PREV_TAB {
            Some(InputAction::Command(PREV_TAB))
        } else {
            None
        },
        Key::Unicode(_) => None,
    }
}

/// The mode to remember after an event.
pub open spec fn mode_after(mode: TerminalMode, record: Option<CtlRecord>) -> TerminalMode {
    match waiting_mode(record) {
        Some(m) => m,
        None => mode,
    }
}

pub open spec fn deliver(frame: (u8, u8)) -> InputAction {
    InputAction::Deliver(frame.0, frame.1)
}

/// What to do about an event. One that gives no key (a release) matters only in
/// raw mode. Hotkeys come first; any other key goes to the application in the way
/// that the mode it waits in asks for, and nowhere if it does not wait.
pub open spec fn action_for(
    mode: TerminalMode,
    record: Option<CtlRecord>,
    key: Option<Key>,
    raw: u16,
) -> InputAction {
    match key {
        None => if record is Some && mode_after(mode, record) == TerminalMode::Raw {
            deliver(raw_frame(raw))
        } else {
            InputAction::Ignore
        },
        Some(k) => match hotkey_action(k) {
            Some(action) => action,
            None => match waiting_mode(record) {
                Some(TerminalMode::Canonical) => match key_action(k) {
                    Some(edit) => InputAction::Edit(edit),
                    None => InputAction::Ignore,
                },
                Some(TerminalMode::Fluid) => deliver(fluid_frame(k)),
                Some(TerminalMode::Raw) => deliver(raw_frame(raw)),
                None => InputAction::Ignore,
            },
        },
    }
}

/// Decodes key events and decides what to do about them.
pub struct InputObserver {
    decoder: KeyDecoder,
    mode: TerminalMode,
}

impl InputObserver {
    /// The events handled so far.
    pub closed spec fn seen(&self) -> Seq<KeyEvent> {
        events_seen(self.decoder)
    }

    /// The mode in which an application last waited.
    pub closed spec fn mode(&self) -> TerminalMode {
        self.mode
    }

    /// An observer that has seen nothing.
    pub fn new() -> (r: InputObserver)
        ensures
            r.seen() == Seq::<KeyEvent>::empty(),
            r.mode() == TerminalMode::Raw,
    {
        InputObserver { decoder: new_decoder(), mode: TerminalMode::Raw }
    }

    /// Decide about a key event. `raw` is the event as a number, `record` what
    /// the active session's application published.
    pub fn run(&mut self, event: KeyEvent, raw: u16, record: Option<CtlRecord>) -> (r: InputAction)
        ensures
            final(self).seen() == old(self).seen().push(event),
            final(self).mode() == mode_after(old(self).mode(), record),
            r == action_for(old(self).mode(), record, decoded_key(old(self).seen(), event), raw),
    {
        let key = process_keyevent(&mut self.decoder, event);
        self.handle(key, raw, record)
    }

    /// Decide about an event that was decoded to `key`.
    pub fn handle(&mut self, key: Option<Key>, raw: u16, record: Option<CtlRecord>) -> (r:
        InputAction)
        ensures
            final(self).seen() == old(self).seen(),
            final(self).mode() == mode_after(old(self).mode(), record),
            r == action_for(old(self).mode(), record, key, raw),
    {
        let mode = resolve_mode(record);
        if let Some(m) = mode {
            self.mode = m;
        }
        let key = match key {
            Some(key) => key,
            None => {
                if record.is_some() && self.mode == TerminalMode::Raw {
                    let (a, b) = buffer_raw(raw);
                    return InputAction::Deliver(a, b);
                }
                return InputAction::Ignore;
            },
        };
        if let Some(action) = intercept_reserved_key(key) {
            return action;
        }
        match mode {
            Some(TerminalMode::Canonical) => match canonical_action(key) {
                Some(edit) => InputAction::Edit(edit),
                None => InputAction::Ignore,
            },
            Some(TerminalMode::Fluid) => {
                let (a, b) = buffer_fluid(key);
                InputAction::Deliver(a, b)
            },
            Some(TerminalMode::Raw) => {
                let (a, b) = buffer_raw(raw);
                InputAction::Deliver(a, b)
            },
            None => InputAction::Ignore,
        }
    }
}

/// The mode in which the foreground application waits for input, if it does.
pub fn resolve_mode(record: Option<CtlRecord>) -> (r: Option<TerminalMode>)
    ensures
        r == waiting_mode(record),
{
    match record {
        Some(record) => {
            if record.wait == WaitState::Waiting {
                Some(record.mode)
            } else {
                None
            }
        },
        None => None,
    }
}

/// What a key does that is reserved as a hotkey.
pub fn intercept_reserved_key(key: Key) -> (r: Option<InputAction>)
    ensures
        r == hotkey_action(key),
{
    match key {
        Key::Raw(code) => {
            if code == HKEY_TOGGLE_TERMINAL_WINDOW {
                Some(InputAction::EnterGuiMode)
            } else if code == HKEY_NEW_TAB {
                Some(InputAction::Command(NEW_TAB))
            } else if code == HKEY_CLOSE_TAB {
                Some(InputAction::Command(CLOSE_ACTIVE))
            } else if code == HKEY_NEXT_TAB {
                Some(InputAction::Command(NEXT_TAB))
            } else if code == HKEY_PREV_TAB {
                Some(InputAction::Command(PREV_TAB))
            } else {
                None
            }
        },
        Key::Unicode(_) => None,
    }
}

/// A hotkey never reaches an application, whatever the application waits for.
pub proof fn law_hotkeys_are_reserved(
    mode: TerminalMode,
    record: Option<CtlRecord>,
    key: Key,
    raw: u16,
)
    requires
        hotkey_action(key) is Some,
    ensures
        !(action_for(mode, record, Some(key), raw) is Deliver),
        !(action_for(mode, record, Some(key), raw) is Edit),
{
}

/// An application that does not wait gets no key.
pub proof fn law_no_key_without_waiting(
    mode: TerminalMode,
    record: Option<CtlRecord>,
    key: Key,
    raw: u16,
)
    requires
        waiting_mode(record) is None,
    ensures
        !(action_for(mode, record, Some(key), raw) is Deliver),
        !(action_for(mode, record, Some(key), raw) is Edit),
{
}

/// A hotkey does the same in every mode, whether or not an application waits.
pub proof fn law_hotkeys_come_first(
    mode: TerminalMode,
    record: Option<CtlRecord>,
    key: Key,
    raw: u16,
)
    ensures
        key == Key::Raw(HKEY_TOGGLE_TERMINAL_WINDOW) ==> action_for(mode, record, Some(key), raw)
            == InputAction::EnterGuiMode,
        key == Key::Raw(HKEY_NEW_TAB) ==> action_for(mode, record, Some(key), raw)
            == InputAction::Command(1),
        key == Key::Raw(HKEY_CLOSE_TAB) ==> action_for(mode, record, Some(key), raw)
            == InputAction::Command(2),
        key == Key::Raw(HKEY_NEXT_TAB) ==> action_for(mode, record, Some(key), raw)
            == InputAction::Command(3),
        key == Key::Raw(HKEY_PREV_TAB) ==> action_for(mode, record, Some(key), raw)
            == InputAction::Command(4),
        key is Unicode ==> hotkey_action(key) is None,
{
}

/// Any other key goes to the application that waits, in the way of its mode: as an edit of
/// the line, as the key itself, or as the event, low byte first. If none waits, it goes
/// nowhere.
pub proof fn law_keys_by_mode(mode: TerminalMode, record: CtlRecord, key: Key, raw: u16)
    requires
        hotkey_action(key) is None,
    ensures
        ({
            let action = action_for(mode, Some(record), Some(key), raw);
            &&& record.wait is Idle ==> action == InputAction::Ignore
            &&& record.wait is Waiting && record.mode is Canonical ==> match key_action(key) {
                Some(edit) => action == InputAction::Edit(edit),
                None => action == InputAction::Ignore,
            }
            &&& record.wait is Waiting && record.mode is Fluid ==> match key {
                Key::Unicode(c) => action == InputAction::Deliver(0, (c as int % 256) as u8),
                Key::Raw(code) => action == InputAction::Deliver(1, code),
            }
            &&& record.wait is Waiting && record.mode is Raw ==> {
                action matches InputAction::Deliver(low, high) && low + 0x100 * high == raw
            }
            &&& action_for(mode, None, Some(key), raw) == InputAction::Ignore
        }),
{
}

/// An event that gives no key goes to an application in raw mode and nowhere else. The
/// mode counts in which an application last waited.
pub proof fn law_releases(mode: TerminalMode, record: CtlRecord, raw: u16)
    ensures
        ({
            let action = action_for(mode, Some(record), None, raw);
            let last = if record.wait is Waiting {
                record.mode
            } else {
                mode
            };
            &&& last is Raw ==> {
                action matches InputAction::Deliver(low, high) && low + 0x100 * high == raw
            }
            &&& !(last is Raw) ==> action == InputAction::Ignore
            &&& mode_after(mode, Some(record)) == last
            &&& mode_after(mode, None) == mode
            &&& action_for(mode, None, None, raw) == InputAction::Ignore
        }),
{
}

} // verus!
