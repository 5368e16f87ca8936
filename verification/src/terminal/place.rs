//! Where the cursor goes.
//!
//! The cursor's path depends on the size of the screen and on the characters
//! printed, never on what the cells hold. So it can be followed, and tested for
//! steps that leave the range of a grid coordinate, without a screen.

use vstd::prelude::*;

use crate::terminal::action::{Act, AnsiAction};
use crate::terminal::glyph::{char_columns, columns_of, glyph_width};
use crate::terminal::model::{ModelCursor, ScreenSize, BACKSPACE, TAB_SPACES};

verus! {

/// Greatest grid coordinate.
pub const COORD_MAX: u16 = 65535;

/// A cursor on a screen of `cols` by `rows` cells, with its saved position.
pub struct Place {
    pub cols: int,
    pub rows: int,
    pub col: int,
    pub row: int,
    pub saved_col: int,
    pub saved_row: int,
}

/// The place that a screen size and a cursor stand for.
pub open spec fn place_of(size: ScreenSize, cursor: ModelCursor) -> Place {
    Place {
        cols: size.cols as int,
        rows: size.rows as int,
        col: cursor.col as int,
        row: cursor.row as int,
        saved_col: cursor.saved_col as int,
        saved_row: cursor.saved_row as int,
    }
}

/// A move of 0 counts as 1.
pub open spec fn steps(n: int) -> int {
    if n == 0 {
        1
    } else {
        n
    }
}

impl Place {
    /// All coordinates are in range and no column is beyond the line end. With a
    /// content row at all, the cursor and the saved cursor are on content rows.
    pub open spec fn wf(self) -> bool {
        &&& 0 <= self.cols <= COORD_MAX
        &&& 0 <= self.rows <= COORD_MAX
        &&& 0 <= self.col <= self.cols
        &&& 0 <= self.saved_col <= self.cols
        &&& 0 <= self.row <= COORD_MAX
        &&& 0 <= self.saved_row <= COORD_MAX
        &&& self.rows >= 2 ==> 1 <= self.row < self.rows && 1 <= self.saved_row < self.rows
    }

    /// The cursor moved as it is told.
    pub open spec fn moved(self, col: int, row: int) -> Place {
        Place { col, row, ..self }
    }

    /// The row that a request for `row` means: the status row stands for the
    /// first content row.
    pub open spec fn content_row(row: int) -> int {
        if row == 0 {
            1
        } else {
            row
        }
    }

    /// The cursor set to a position: beyond the last row it stays on the last.
    pub open spec fn at(self, col: int, row: int) -> Place {
        let target = Place::content_row(row);
        self.moved(
            col,
            if target < self.rows {
                target
            } else {
                self.rows - 1
            },
        )
    }

    /// By how many rows the screen scrolls when the cursor is set to `row`.
    pub open spec fn scrolls_for(self, row: int) -> nat {
        let target = Place::content_row(row);
        if target < self.rows {
            0
        } else {
            (target - self.rows + 1) as nat
        }
    }

    /// Behind the last column the cursor goes to the next line, below the last
    /// row it stays on the last.
    pub open spec fn settled(self) -> Place {
        let p = if self.col >= self.cols {
            self.moved(0, self.row + 1)
        } else {
            self
        };
        if p.row >= p.rows {
            p.moved(0, p.rows - 1)
        } else {
            p
        }
    }

    /// Settling stays within the range of a coordinate.
    pub open spec fn can_settle(self) -> bool {
        let p = if self.col >= self.cols {
            self.moved(0, self.row + 1)
        } else {
            self
        };
        p.row <= COORD_MAX && (p.row >= p.rows ==> p.rows >= 1)
    }

    /// The cursor behind a character of `columns` columns, before it settles.
    pub open spec fn stepped(self, c: char, columns: int) -> Place {
        if c == '\n' {
            self.moved(0, self.row + 1)
        } else if c == BACKSPACE {
            self.moved(if self.col > 0 { self.col - 1 } else { 0 }, self.row)
        } else if columns > 0 {
            if self.col + columns >= self.cols {
                self.at(0, self.row + 1)
            } else {
                self.moved(self.col + columns, self.row)
            }
        } else {
            self
        }
    }

    /// The cursor behind a character of `columns` columns.
    pub open spec fn printed(self, c: char, columns: int) -> Place {
        self.stepped(c, columns).settled()
    }

    /// A character of `columns` columns can be printed.
    pub open spec fn can_print(self, c: char, columns: int) -> bool {
        &&& c == '\n' ==> self.row < COORD_MAX
        &&& c != '\n' && c != BACKSPACE && columns > 0 ==> {
            &&& self.col + columns <= COORD_MAX
            &&& self.col + columns >= self.cols ==> self.row < self.rows
        }
        &&& self.stepped(c, columns).can_settle()
    }

    /// Where a tab asks the cursor to go.
    pub open spec fn tab_target(self) -> (int, int) {
        if self.col + TAB_SPACES >= self.cols {
            (0, self.row + 1)
        } else {
            ((self.col + TAB_SPACES) / TAB_SPACES as int * TAB_SPACES, self.row)
        }
    }

    /// The next tab stop can be computed.
    pub open spec fn can_tab(self) -> bool {
        &&& self.col + TAB_SPACES <= COORD_MAX
        &&& self.col + TAB_SPACES >= self.cols ==> self.row < COORD_MAX
        &&& self.rows >= 1
    }

    /// A row below the last one stands for the last one.
    pub open spec fn clamp_row(self, row: int) -> int {
        if row < self.rows {
            row
        } else {
            self.rows - 1
        }
    }

    /// A column behind the last one stands for the last one.
    pub open spec fn clamp_col(self, col: int) -> int {
        if col < self.cols {
            col
        } else {
            self.cols - 1
        }
    }

    /// Where a cursor sequence asks the cursor to go, if anywhere.
    pub open spec fn sequence_target(self, code: u8, params: Seq<u16>) -> Option<(int, int)> {
        if code == 0x48 || code == 0x66 {
            if params.len() >= 2 {
                Some(
                    (
                        if params[0] > self.cols {
                            self.cols - 1
                        } else {
                            params[0] as int
                        },
                        if params[1] > self.rows {
                            self.rows - 1
                        } else {
                            params[1] as int
                        },
                    ),
                )
            } else {
                Some((0, 0))
            }
        } else if code == 0x75 {
            Some((self.saved_col, self.saved_row))
        } else if params.len() == 0 {
            None
        } else {
            let n = params[0] as int;
            if code == 0x41 {
                Some((self.col, self.row - steps(n)))
            } else if code == 0x42 {
                Some((self.col, self.clamp_row(self.row + steps(n))))
            } else if code == 0x43 {
                Some((self.clamp_col(self.col + steps(n)), self.row))
            } else if code == 0x44 {
                Some((self.col - steps(n), self.row))
            } else if code == 0x45 {
                Some((0, self.clamp_row(self.row + n + 1)))
            } else if code == 0x46 {
                Some((0, self.row - n - 1))
            } else if code == 0x47 {
                Some((self.clamp_col(n), self.row))
            } else {
                None
            }
        }
    }

    /// A cursor sequence stays within the range of a coordinate. A move up or
    /// left past 0, or by more than a coordinate holds, does not.
    pub open spec fn can_sequence(self, code: u8, params: Seq<u16>) -> bool {
        &&& self.sequence_target(code, params) matches Some(_) ==> self.rows >= 1
        &&& params.len() > 0 ==> {
            let n = params[0] as int;
            &&& code == 0x41 ==> self.row >= steps(n)
            &&& code == 0x42 ==> self.row + steps(n) <= COORD_MAX
            &&& code == 0x43 ==> self.col + steps(n) <= COORD_MAX && self.cols >= 1
            &&& code == 0x44 ==> self.col >= steps(n)
            &&& code == 0x45 ==> self.row + n + 1 <= COORD_MAX
            &&& code == 0x46 ==> self.row >= n + 1
            &&& code == 0x47 ==> self.cols >= 1
            &&& (code == 0x48 || code == 0x66) && params.len() >= 2 && n > self.cols ==> self.cols
                >= 1
        }
    }

    /// The place after a cursor sequence.
    pub open spec fn sequenced(self, code: u8, params: Seq<u16>) -> Place {
        if code == 0x73 {
            Place { saved_col: self.col, saved_row: self.row, ..self }
        } else {
            match self.sequence_target(code, params) {
                Some((col, row)) => self.at(col, row),
                None => self,
            }
        }
    }

    /// The sequence erases the whole screen, which homes the cursor.
    pub open spec fn is_full_erase(code: u8, params: Seq<u16>) -> bool {
        code == 0x4a && params.len() > 0 && params[0] == 2
    }

    /// The action stays within the range of a coordinate.
    pub open spec fn can_apply(self, act: Act) -> bool {
        match act {
            Act::Print(c) => self.can_print(c, columns_of(glyph_width(c))),
            Act::Execute(byte) => {
                &&& byte == 0x09 ==> self.can_tab()
                &&& byte == 0x0a ==> self.can_print('\n', 0)
            },
            Act::Csi { params, action } => {
                &&& self.can_sequence(action, params)
                &&& Place::is_full_erase(action, params) ==> self.rows >= 1
            },
        }
    }

    /// The place after an action.
    pub open spec fn after(self, act: Act) -> Place {
        match act {
            Act::Print(c) => self.printed(c, columns_of(glyph_width(c))),
            Act::Execute(byte) => if byte == 0x09 {
                self.at(self.tab_target().0, self.tab_target().1)
            } else if byte == 0x0a {
                self.printed('\n', 0)
            } else {
                self
            },
            Act::Csi { params, action } => if Place::is_full_erase(action, params) {
                self.at(0, 0)
            } else {
                self.sequenced(action, params)
            },
        }
    }

    /// The place after a list of actions.
    pub open spec fn after_all(self, acts: Seq<Act>) -> Place
        decreases acts.len(),
    {
        if acts.len() == 0 {
            self
        } else {
            self.after_all(acts.drop_last()).after(acts.last())
        }
    }

    /// Each action of the list can be applied after those before it.
    pub open spec fn can_apply_all(self, acts: Seq<Act>) -> bool
        decreases acts.len(),
    {
        acts.len() == 0 || {
            &&& self.can_apply_all(acts.drop_last())
            &&& self.after_all(acts.drop_last()).can_apply(acts.last())
        }
    }
}

/// Every action that can be applied keeps the cursor where it may be. On a
/// screen with a content row it stays on content rows.
pub proof fn law_cursor_stays_on_content(p: Place, act: Act)
    requires
        p.wf(),
        p.can_apply(act),
    ensures
        p.after(act).wf(),
        p.after(act).cols == p.cols,
        p.after(act).rows == p.rows,
        p.rows >= 2 ==> 1 <= p.after(act).row < p.rows,
{
}

/// The action saves the cursor.
pub open spec fn is_save(act: Act) -> bool {
    act matches Act::Csi { action, .. } && action == 0x73
}

/// An action that does not save the cursor keeps the saved position.
proof fn lemma_saved_kept(p: Place, acts: Seq<Act>)
    requires
        forall|i: int| 0 <= i < acts.len() ==> !is_save(#[trigger] acts[i]),
    ensures
        p.after_all(acts).saved_col == p.saved_col,
        p.after_all(acts).saved_row == p.saved_row,
        p.after_all(acts).rows == p.rows,
    decreases acts.len(),
{
    if acts.len() > 0 {
        lemma_saved_kept(p, acts.drop_last());
        assert(!is_save(acts.last()));
    }
}

/// Saving the cursor and restoring it later brings it back, whatever other
/// actions came in between.
pub proof fn law_save_restore(p: Place, acts: Seq<Act>)
    requires
        p.wf(),
        p.rows >= 2,
        forall|i: int| 0 <= i < acts.len() ==> !is_save(#[trigger] acts[i]),
    ensures
        ({
            let q = p.sequenced(0x73, seq![]).after_all(acts).sequenced(0x75, seq![]);
            q.col == p.col && q.row == p.row
        }),
{
    lemma_saved_kept(p.sequenced(0x73, seq![]), acts);
}

/// Following the actions one list after the other is following them at once.
pub proof fn law_after_all_splits(p: Place, a: Seq<Act>, b: Seq<Act>)
    ensures
        p.after_all(a + b) == p.after_all(a).after_all(b),
        p.can_apply_all(a + b) == (p.can_apply_all(a) && p.after_all(a).can_apply_all(b)),
    decreases b.len(),
{
    if b.len() == 0 {
        assert(a + b =~= a);
    } else {
        assert((a + b).drop_last() =~= a + b.drop_last());
        law_after_all_splits(p, a, b.drop_last());
    }
}

/// `value + delta` still is a coordinate.
fn fits(value: u16, delta: u32) -> (r: bool)
    requires
        delta <= 0x10_0000,
    ensures
        r == (value + delta <= COORD_MAX),
{
    value as u32 + delta <= COORD_MAX as u32
}

fn can_settle(size: ScreenSize, col: u16, row: u32) -> (r: bool)
    requires
        row <= COORD_MAX,
    ensures
        r == place_of(size, ModelCursor { col, row: row as u16, saved_col: 0, saved_row: 0 }).can_settle(),
{
    let next: u32 = if col >= size.cols { row + 1 } else { row };
    next <= COORD_MAX as u32 && (next < size.rows as u32 || size.rows >= 1)
}

/// Whether a character of `columns` columns can be printed.
pub fn can_print(size: ScreenSize, cursor: ModelCursor, c: char, columns: u16) -> (r: bool)
    requires
        place_of(size, cursor).wf(),
    ensures
        r == place_of(size, cursor).can_print(c, columns as int),
{
    if c == '\n' {
        cursor.row < COORD_MAX && can_settle(size, 0, cursor.row as u32 + 1)
    } else if c == BACKSPACE {
        let col: u16 = if cursor.col > 0 { cursor.col - 1 } else { 0 };
        can_settle(size, col, cursor.row as u32)
    } else if columns > 0 {
        if !fits(cursor.col, columns as u32) {
            return false;
        }
        let col: u16 = cursor.col + columns;
        if col >= size.cols {
            if cursor.row >= size.rows {
                return false;
            }
            let next: u32 = cursor.row as u32 + 1;
            let row: u32 = if next < size.rows as u32 { next } else { size.rows as u32 - 1 };
            can_settle(size, 0, row)
        } else {
            can_settle(size, col, cursor.row as u32)
        }
    } else {
        can_settle(size, cursor.col, cursor.row as u32)
    }
}

fn can_sequence(size: ScreenSize, cursor: ModelCursor, code: u8, params: &Vec<u16>) -> (r: bool)
    requires
        place_of(size, cursor).wf(),
    ensures
        r == place_of(size, cursor).can_sequence(code, params@),
{
    if code == 0x48 || code == 0x66 {
        return size.rows >= 1 && (params.len() < 2 || params[0] <= size.cols || size.cols >= 1);
    }
    if code == 0x75 {
        return size.rows >= 1;
    }
    if params.len() == 0 {
        return true;
    }
    let n: u16 = params[0];
    let m: u16 = if n == 0 { 1 } else { n };
    if code == 0x41 {
        size.rows >= 1 && cursor.row >= m
    } else if code == 0x42 {
        size.rows >= 1 && fits(cursor.row, m as u32)
    } else if code == 0x43 {
        size.rows >= 1 && fits(cursor.col, m as u32) && size.cols >= 1
    } else if code == 0x44 {
        size.rows >= 1 && cursor.col >= m
    } else if code == 0x45 {
        size.rows >= 1 && fits(cursor.row, n as u32 + 1)
    } else if code == 0x46 {
        size.rows >= 1 && cursor.row as u32 >= n as u32 + 1
    } else if code == 0x47 {
        size.rows >= 1 && size.cols >= 1
    } else {
        true
    }
}

/// Whether an action stays within the range of a grid coordinate.
pub fn can_apply(size: ScreenSize, cursor: ModelCursor, action: &AnsiAction) -> (r: bool)
    requires
        place_of(size, cursor).wf(),
    ensures
        r == place_of(size, cursor).can_apply(action@),
{
    match action {
        AnsiAction::Print(c) => can_print(size, cursor, *c, char_columns(*c)),
        AnsiAction::Execute(byte) => {
            if *byte == 0x09 {
                fits(cursor.col, TAB_SPACES as u32) && (cursor.col + TAB_SPACES < size.cols
                    || cursor.row < COORD_MAX) && size.rows >= 1
            } else if *byte == 0x0a {
                can_print(size, cursor, '\n', 0)
            } else {
                true
            }
        },
        AnsiAction::Csi { params, action } => {
            can_sequence(size, cursor, *action, params) && (*action != 0x4a || params.len() == 0
                || params[0] != 2 || size.rows >= 1)
        },
    }
}

/// Set the cursor: the status row stands for the first content row, a row below
/// the last one for the last.
fn place_at(size: ScreenSize, cursor: ModelCursor, col: u16, row: u16) -> (r: ModelCursor)
    requires
        size.rows >= 1,
    ensures
        place_of(size, r) == place_of(size, cursor).at(col as int, row as int),
{
    let target: u16 = if row == 0 { 1 } else { row };
    let row: u16 = if target < size.rows { target } else { size.rows - 1 };
    ModelCursor { col, row, ..cursor }
}

fn settle(size: ScreenSize, cursor: ModelCursor) -> (r: ModelCursor)
    requires
        place_of(size, cursor).can_settle(),
    ensures
        place_of(size, r) == place_of(size, cursor).settled(),
{
    let next = if cursor.col >= size.cols {
        ModelCursor { col: 0, row: cursor.row + 1, ..cursor }
    } else {
        cursor
    };
    if next.row >= size.rows {
        ModelCursor { col: 0, row: size.rows - 1, ..next }
    } else {
        next
    }
}

/// Where the cursor stands behind a character of `columns` columns.
pub fn cursor_after_print(size: ScreenSize, cursor: ModelCursor, c: char, columns: u16) -> (r:
    ModelCursor)
    requires
        place_of(size, cursor).wf(),
        place_of(size, cursor).can_print(c, columns as int),
    ensures
        place_of(size, r) == place_of(size, cursor).printed(c, columns as int),
{
    let stepped = if c == '\n' {
        ModelCursor { col: 0, row: cursor.row + 1, ..cursor }
    } else if c == BACKSPACE {
        let col: u16 = if cursor.col > 0 { cursor.col - 1 } else { 0 };
        ModelCursor { col, ..cursor }
    } else if columns > 0 {
        if cursor.col + columns >= size.cols {
            place_at(size, cursor, 0, cursor.row + 1)
        } else {
            ModelCursor { col: cursor.col + columns, ..cursor }
        }
    } else {
        cursor
    };
    settle(size, stepped)
}

/// Where a cursor sequence asks the cursor to go, if anywhere.
pub fn sequence_target(size: ScreenSize, cursor: ModelCursor, code: u8, params: &Vec<u16>) -> (r:
    Option<(u16, u16)>)
    requires
        place_of(size, cursor).wf(),
        place_of(size, cursor).can_sequence(code, params@),
    ensures
        match place_of(size, cursor).sequence_target(code, params@) {
            Some(t) => r matches Some(u) && u.0 == t.0 && u.1 == t.1,
            None => r is None,
        },
{
    if code == 0x48 || code == 0x66 {
        if params.len() >= 2 {
            let col: u16 = if params[0] > size.cols { size.cols - 1 } else { params[0] };
            let row: u16 = if params[1] > size.rows { size.rows - 1 } else { params[1] };
            return Some((col, row));
        }
        return Some((0, 0));
    }
    if code == 0x75 {
        return Some((cursor.saved_col, cursor.saved_row));
    }
    if params.len() == 0 {
        return None;
    }
    let n: u16 = params[0];
    let m: u16 = if n == 0 { 1 } else { n };
    match code {
        0x41 => {
            // Cursor up
            Some((cursor.col, cursor.row - m))
        },
        0x42 => {
            // Cursor down
            let row: u16 = cursor.row + m;
            Some((cursor.col, if row < size.rows { row } else { size.rows - 1 }))
        },
        0x43 => {
            // Cursor right
            let col: u16 = cursor.col + m;
            Some((if col < size.cols { col } else { size.cols - 1 }, cursor.row))
        },
        0x44 => {
            // Cursor left
            Some((cursor.col - m, cursor.row))
        },
        0x45 => {
            // Start of the next line(s)
            let row: u16 = cursor.row + n + 1;
            Some((0, if row < size.rows { row } else { size.rows - 1 }))
        },
        0x46 => {
            // Start of the previous line(s)
            Some((0, cursor.row - n - 1))
        },
        0x47 => {
            // Column
            Some((if n < size.cols { n } else { size.cols - 1 }, cursor.row))
        },
        _ => None,
    }
}

/// Where a tab asks the cursor to go.
pub fn tab_target(size: ScreenSize, cursor: ModelCursor) -> (r: (u16, u16))
    requires
        place_of(size, cursor).wf(),
        place_of(size, cursor).can_tab(),
    ensures
        r.0 == place_of(size, cursor).tab_target().0,
        r.1 == place_of(size, cursor).tab_target().1,
{
    if cursor.col + TAB_SPACES >= size.cols {
        (0, cursor.row + 1)
    } else {
        ((cursor.col + TAB_SPACES) / TAB_SPACES * TAB_SPACES, cursor.row)
    }
}

/// Where the cursor stands after an action.
pub(crate) fn cursor_after(size: ScreenSize, cursor: ModelCursor, action: &AnsiAction) -> (r: ModelCursor)
    requires
        place_of(size, cursor).wf(),
        place_of(size, cursor).can_apply(action@),
    ensures
        place_of(size, r) == place_of(size, cursor).after(action@),
        place_of(size, r).wf(),
{
    proof {
        law_cursor_stays_on_content(place_of(size, cursor), action@);
    }
    match action {
        AnsiAction::Print(c) => cursor_after_print(size, cursor, *c, char_columns(*c)),
        AnsiAction::Execute(byte) => {
            if *byte == 0x09 {
                let target = tab_target(size, cursor);
                place_at(size, cursor, target.0, target.1)
            } else if *byte == 0x0a {
                cursor_after_print(size, cursor, '\n', 0)
            } else {
                cursor
            }
        },
        AnsiAction::Csi { params, action } => {
            if *action == 0x4a && params.len() > 0 && params[0] == 2 {
                return place_at(size, cursor, 0, 0);
            }
            if *action == 0x73 {
                return ModelCursor { saved_col: cursor.col, saved_row: cursor.row, ..cursor };
            }
            match sequence_target(size, cursor, *action, params) {
                Some((col, row)) => place_at(size, cursor, col, row),
                None => cursor,
            }
        },
    }
}

/// On a screen with a content row and a column, everything that is printed or erased can
/// be done, as far as a coordinate holds where it ends.
pub proof fn law_can_always_print(p: Place, c: char, params: Seq<u16>, action: u8)
    requires
        p.wf(),
        p.rows >= 2,
        p.cols >= 1,
        p.cols + 255 <= 65535,
    ensures
        p.can_apply(Act::Print('\n')),
        p.can_apply(Act::Print(BACKSPACE)),
        columns_of(glyph_width(c)) <= 255 ==> p.can_apply(Act::Print(c)),
        p.can_apply(Act::Execute(action)),
        action == 0x4a || action == 0x4b || action == 0x6d || action == 0x73 || action == 0x75
            ==> p.can_apply(Act::Csi { params, action }),
        action == 0x47 || action == 0x48 || action == 0x66 ==> p.can_apply(
            Act::Csi { params, action },
        ),
{
}

/// On such a screen, moves down and to the right can be done as far as a coordinate holds
/// where they lead, and moves up and to the left as far as there are rows and columns,
/// counting the status row; a move by 0 is one by 1.
pub proof fn law_can_move(p: Place, n: u16)
    requires
        p.wf(),
        p.rows >= 2,
        p.cols >= 1,
    ensures
        ({
            let by: int = if n == 0 {
                1
            } else {
                n as int
            };
            let one = seq![n];
            &&& p.can_apply(Act::Csi { params: one, action: 0x41 }) <==> by <= p.row
            &&& p.can_apply(Act::Csi { params: one, action: 0x42 }) <==> p.row + by <= 65535
            &&& p.can_apply(Act::Csi { params: one, action: 0x43 }) <==> p.col + by <= 65535
            &&& p.can_apply(Act::Csi { params: one, action: 0x44 }) <==> by <= p.col
            &&& p.can_apply(Act::Csi { params: one, action: 0x45 }) <==> p.row + n + 1 <= 65535
            &&& p.can_apply(Act::Csi { params: one, action: 0x46 }) <==> n + 1 <= p.row
        }),
{
}

} // verus!
