//! What the escape sequence parser asks of the screen.

use vstd::prelude::*;

verus! {

/// One step that the parser dispatches. Of each CSI parameter only the first
/// value counts, so that is what is kept.
pub enum AnsiAction {
    /// A printable character.
    Print(char),
    /// A control character.
    Execute(u8),
    /// A control sequence with its parameters and its final byte.
    Csi { params: Vec<u16>, action: u8 },
}

/// An action as a mathematical value.
pub enum Act {
    Print(char),
    Execute(u8),
    Csi { params: Seq<u16>, action: u8 },
}

impl View for AnsiAction {
    type V = Act;

    open spec fn view(&self) -> Act {
        match *self {
            AnsiAction::Print(c) => Act::Print(c),
            AnsiAction::Execute(b) => Act::Execute(b),
            AnsiAction::Csi { params, action } => Act::Csi { params: params@, action },
        }
    }
}

/// A list of actions as mathematical values.
pub open spec fn acts(actions: Seq<AnsiAction>) -> Seq<Act> {
    Seq::new(actions.len(), |i: int| actions[i]@)
}

} // verus!
