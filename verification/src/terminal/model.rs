//! The screen of one terminal session: a grid of cells, a cursor, the colours in
//! force, bounded scrollback and a summary of what the last feed changed.
//!
//! Row 0 of the grid is reserved for the status bar. On a screen of two rows or
//! more the cursor never stands on it and nothing is ever printed into it.

use vstd::prelude::*;

use std::collections::VecDeque;

use crate::terminal::action::{Act, AnsiAction};
use crate::terminal::color::{initial_colors, BaseColor, Color, ColorState};
use crate::terminal::glyph::{char_columns, columns_of, glyph_width};
use crate::terminal::place::{
    law_cursor_stays_on_content,
    place_of,
    sequence_target,
    tab_target,
    Place,
};

verus! {

/// Columns between two tab stops.
pub const TAB_SPACES: u16 = 4;

/// Bytes that a session's scrollback may take.
pub const SCROLLBACK_BYTE_BUDGET: usize = 262144;

/// Bytes that one stored cell takes.
pub const CELL_BYTES: usize = 16;

/// The backspace character.
pub const BACKSPACE: char = '\u{8}';

/// Grid dimensions in character cells. `rows` counts the status row too.
#[derive(Copy, Clone, Debug, PartialEq, Eq, Structural)]
pub struct ScreenSize {
    pub cols: u16,
    pub rows: u16,
}

/// One character cell. `width` is the glyph's column span: 1 for a normal glyph,
/// 2 for the lead cell of a wide one, 0 for the cell that continues it.
#[derive(Copy, Clone, Debug, PartialEq, Eq, Structural)]
pub struct Cell {
    pub value: char,
    pub fg_color: Color,
    pub bg_color: Color,
    pub width: u8,
}

/// A narrow cell in the colours in force.
pub open spec fn cell_with(value: char, color: ColorState) -> Cell {
    Cell { value, fg_color: color.fg_color, bg_color: color.bg_color, width: 1 }
}

/// The cell behind the lead cell of a wide glyph.
pub open spec fn continuation_cell() -> Cell {
    Cell {
        value: '\0',
        fg_color: Color::of(BaseColor::Invisible),
        bg_color: Color::of(BaseColor::Invisible),
        width: 0,
    }
}

impl Cell {
    fn with(value: char, color: &ColorState) -> (r: Cell)
        ensures
            r == cell_with(value, *color),
    {
        Cell { value, fg_color: color.fg_color, bg_color: color.bg_color, width: 1 }
    }
}

/// One grid row. `wrapped` records that the row ended in an automatic wrap.
#[derive(Clone)]
pub struct Row {
    pub cells: Vec<Cell>,
    pub wrapped: bool,
}

/// What a row holds.
#[verifier::ext_equal]
pub struct Line {
    pub cells: Seq<Cell>,
    pub wrapped: bool,
}

impl View for Row {
    type V = Line;

    open spec fn view(&self) -> Line {
        Line { cells: self.cells@, wrapped: self.wrapped }
    }
}

/// An unwrapped row of blank cells.
pub open spec fn blank_line(cols: int, color: ColorState) -> Line {
    Line { cells: Seq::new(cols as nat, |c: int| cell_with('\0', color)), wrapped: false }
}

impl Row {
    fn blank(cols: u16, color: &ColorState) -> (r: Row)
        ensures
            r@ == blank_line(cols as int, *color),
    {
        let cells = vec![Cell::with('\0', color); cols as usize];
        proof {
            assert(cells@ =~= blank_line(cols as int, *color).cells);
        }
        Row { cells, wrapped: false }
    }
}

/// Cursor position in grid coordinates and the saved one.
#[derive(Copy, Clone, Debug, PartialEq, Eq, Structural)]
pub struct ModelCursor {
    pub col: u16,
    pub row: u16,
    pub saved_col: u16,
    pub saved_row: u16,
}

impl ModelCursor {
    fn new() -> (r: ModelCursor)
        ensures
            r == (ModelCursor { col: 0, row: 1, saved_col: 0, saved_row: 1 }),
    {
        ModelCursor { col: 0, row: 1, saved_col: 0, saved_row: 1 }
    }
}

/// What a feed changed. `full` asks for a repaint of the whole viewport;
/// otherwise `dirty_min..=dirty_max` are the grid rows whose cells changed, after
/// the presented rows were moved up by `scrolled`. `cursor_changed` asks for a
/// refresh of the cursor overlay.
#[derive(Copy, Clone, Debug, PartialEq, Eq, Structural)]
pub struct Damage {
    pub full: bool,
    pub dirty_min: Option<u16>,
    pub dirty_max: Option<u16>,
    pub cursor_changed: bool,
    pub scrolled: u16,
}

/// Nothing changed.
pub open spec fn no_damage() -> Damage {
    Damage { full: false, dirty_min: None, dirty_max: None, cursor_changed: false, scrolled: 0 }
}

impl Damage {
    /// The dirty range is given by both ends or by neither, lowest row first.
    pub open spec fn wf(self) -> bool {
        match (self.dirty_min, self.dirty_max) {
            (Some(min), Some(max)) => min <= max,
            (None, None) => true,
            _ => false,
        }
    }

    /// The dirty range widened to hold `row`.
    pub open spec fn row_marked(self, row: int) -> Damage {
        Damage {
            dirty_min: match self.dirty_min {
                Some(m) => Some(if m <= row { m } else { row as u16 }),
                None => Some(row as u16),
            },
            dirty_max: match self.dirty_max {
                Some(m) => Some(if m >= row { m } else { row as u16 }),
                None => Some(row as u16),
            },
            ..self
        }
    }

    /// `row` lies in the dirty range.
    pub open spec fn covers(self, row: int) -> bool {
        self.full || (self.dirty_min matches Some(min) && self.dirty_max matches Some(max) && min
            <= row <= max)
    }

    /// No damage.
    pub fn none() -> (r: Damage)
        ensures
            r == no_damage(),
    {
        Damage { full: false, dirty_min: None, dirty_max: None, cursor_changed: false, scrolled: 0 }
    }

    /// Whether nothing changed at all.
    pub fn is_clean(&self) -> (r: bool)
        requires
            self.wf(),
        ensures
            r == (*self == no_damage()),
    {
        !self.full && self.dirty_min.is_none() && !self.cursor_changed && self.scrolled == 0
    }

    fn reset(&mut self)
        ensures
            *final(self) == no_damage(),
    {
        *self = Damage::none();
    }

    fn mark_full(&mut self)
        ensures
            *final(self) == (Damage { full: true, ..*old(self) }),
    {
        self.full = true;
    }

    fn mark_cursor(&mut self)
        ensures
            *final(self) == (Damage { cursor_changed: true, ..*old(self) }),
    {
        self.cursor_changed = true;
    }

    fn mark_row(&mut self, row: u16)
        ensures
            *final(self) == old(self).row_marked(row as int),
    {
        self.dirty_min = match self.dirty_min {
            Some(m) => Some(if m <= row { m } else { row }),
            None => Some(row),
        };
        self.dirty_max = match self.dirty_max {
            Some(m) => Some(if m >= row { m } else { row }),
            None => Some(row),
        };
    }

    fn mark_range(&mut self, from: u16, to: u16)
        ensures
            *final(self) == old(self).row_marked(from as int).row_marked(to as int),
    {
        self.mark_row(from);
        self.mark_row(to);
    }

    /// Inclusive dirty row range, if any cells changed.
    pub fn dirty_range(&self) -> (r: Option<(u16, u16)>)
        ensures
            r == (match (self.dirty_min, self.dirty_max) {
                (Some(min), Some(max)) => Some((min, max)),
                _ => None,
            }),
    {
        match (self.dirty_min, self.dirty_max) {
            (Some(min), Some(max)) => Some((min, max)),
            _ => None,
        }
    }
}

/// The part of the screen that an erase sequence covers.
#[derive(Copy, Clone, Debug, PartialEq, Eq, Structural)]
pub enum Part {
    All,
    BeforeCursor,
    FromCursor,
}

impl Part {
    /// The cell at this row and column lies in the part.
    pub open spec fn covers(self, place: Place, r: int, c: int) -> bool {
        let before = r < place.row || (r == place.row && c < place.col);
        match self {
            Part::All => true,
            Part::BeforeCursor => before,
            Part::FromCursor => !before,
        }
    }
}

/// A screen as a mathematical value.
#[verifier::ext_equal]
pub struct Screen {
    pub place: Place,
    pub grid: Seq<Line>,
    pub scrollback: Seq<Line>,
    pub max_scrollback: int,
    pub color: ColorState,
    pub damage: Damage,
}

/// How many rows of scrollback fit the byte budget; one always does.
pub open spec fn scrollback_rows(cols: int) -> int {
    let row_bytes = (if cols > 0 { cols } else { 1 }) * CELL_BYTES;
    let fit = SCROLLBACK_BYTE_BUDGET as int / row_bytes;
    if fit > 0 {
        fit
    } else {
        1
    }
}

impl Screen {
    /// The grid has the size of the screen, the scrollback keeps its bound, the
    /// cursor is where it may be, and the status row of a screen with content
    /// rows holds nothing printed.
    pub open spec fn wf(self) -> bool {
        self.place.wf() && self.frame_wf()
    }

    /// What holds of a screen wherever its cursor is.
    pub open spec fn frame_wf(self) -> bool {
        &&& 0 <= self.place.cols <= 65535
        &&& 0 <= self.place.rows <= 65535
        &&& self.damage.wf()
        &&& self.grid.len() == self.place.rows
        &&& forall|r: int|
            0 <= r < self.grid.len() ==> (#[trigger] self.grid[r]).cells.len() == self.place.cols
        &&& forall|r: int|
            0 <= r < self.scrollback.len() ==> (#[trigger] self.scrollback[r]).cells.len()
                == self.place.cols
        &&& self.scrollback.len() <= self.max_scrollback
        &&& self.max_scrollback == scrollback_rows(self.place.cols)
        &&& self.place.rows >= 2 ==> self.status_row_empty()
    }

    /// The status row is unwrapped and every cell of it is blank.
    pub open spec fn status_row_empty(self) -> bool {
        &&& !self.grid[0].wrapped
        &&& forall|c: int|
            0 <= c < self.grid[0].cells.len() ==> (#[trigger] self.grid[0].cells[c]).value == '\0'
                && self.grid[0].cells[c].width == 1
    }

    /// A screen with nothing on it.
    pub open spec fn empty(size: ScreenSize) -> Screen {
        Screen {
            place: place_of(size, ModelCursor { col: 0, row: 1, saved_col: 0, saved_row: 1 }),
            grid: Seq::new(size.rows as nat, |r: int| blank_line(size.cols as int, initial_colors())),
            scrollback: Seq::empty(),
            max_scrollback: scrollback_rows(size.cols as int),
            color: initial_colors(),
            damage: no_damage(),
        }
    }

    pub open spec fn moved(self, col: int, row: int) -> Screen {
        Screen { place: self.place.moved(col, row), ..self }
    }

    pub open spec fn row_marked(self, row: int) -> Screen {
        Screen { damage: self.damage.row_marked(row), ..self }
    }

    pub open spec fn full_marked(self) -> Screen {
        Screen { damage: Damage { full: true, ..self.damage }, ..self }
    }

    pub open spec fn cursor_marked(self) -> Screen {
        Screen { damage: Damage { cursor_changed: true, ..self.damage }, ..self }
    }

    /// The topmost content row goes to the scrollback, the others move up, a
    /// blank row follows, and the whole viewport has to be repainted. A screen
    /// without content rows does not scroll.
    pub open spec fn scrolled_up(self) -> Screen {
        let rows = self.place.rows;
        if rows <= 1 {
            self
        } else {
            let history = self.scrollback.push(self.grid[1]);
            Screen {
                grid: Seq::new(
                    rows as nat,
                    |r: int|
                        if r == 0 {
                            self.grid[0]
                        } else if r < rows - 1 {
                            self.grid[r + 1]
                        } else {
                            blank_line(self.place.cols, self.color)
                        },
                ),
                scrollback: if history.len() > self.max_scrollback {
                    history.skip(history.len() - self.max_scrollback)
                } else {
                    history
                },
                ..self
            }.full_marked()
        }
    }

    pub open spec fn scrolled_by(self, n: nat) -> Screen
        decreases n,
    {
        if n == 0 {
            self
        } else {
            self.scrolled_by((n - 1) as nat).scrolled_up()
        }
    }

    /// The cursor set to a position, the screen scrolled where that is below it.
    pub open spec fn position(self, col: int, row: int) -> Screen {
        let s = self.scrolled_by(self.place.scrolls_for(row));
        Screen { place: self.place.at(col, row), ..s }.cursor_marked()
    }

    /// One cell replaced, if it is on the screen.
    pub open spec fn with_cell(self, col: int, row: int, cell: Cell) -> Screen {
        if 0 <= row < self.place.rows && 0 <= col < self.place.cols {
            let line = self.grid[row];
            Screen {
                grid: self.grid.update(row, Line { cells: line.cells.update(col, cell), ..line }),
                ..self
            }
        } else {
            self
        }
    }

    /// The cells of a line with a glyph of `columns` columns put at `col`: its
    /// lead cell, then continuation cells as far as the line goes.
    pub open spec fn glyph_cells(
        cells: Seq<Cell>,
        col: int,
        c: char,
        columns: int,
        color: ColorState,
    ) -> Seq<Cell> {
        Seq::new(
            cells.len(),
            |j: int|
                if j == col {
                    Cell { width: columns as u8, ..cell_with(c, color) }
                } else if col < j < col + columns {
                    continuation_cell()
                } else {
                    cells[j]
                },
        )
    }

    /// A glyph put at the cursor.
    pub open spec fn with_glyph(self, c: char, columns: int) -> Screen {
        let row = self.place.row;
        if row < self.place.rows {
            let line = self.grid[row];
            Screen {
                grid: self.grid.update(
                    row,
                    Line {
                        cells: Screen::glyph_cells(
                            line.cells,
                            self.place.col,
                            c,
                            columns,
                            self.color,
                        ),
                        ..line
                    },
                ),
                ..self
            }
        } else {
            self
        }
    }

    /// The columns `from..to` of the cursor's row turned into continuation cells.
    pub open spec fn with_continuation(self, from: int, to: int) -> Screen {
        let row = self.place.row;
        if row < self.place.rows {
            let line = self.grid[row];
            Screen {
                grid: self.grid.update(
                    row,
                    Line {
                        cells: Seq::new(
                            line.cells.len(),
                            |c: int|
                                if from <= c < to {
                                    continuation_cell()
                                } else {
                                    line.cells[c]
                                },
                        ),
                        ..line
                    },
                ),
                ..self
            }
        } else {
            self
        }
    }

    /// The cursor's row marked as wrapped.
    pub open spec fn wrapped(self) -> Screen {
        let row = self.place.row;
        Screen {
            grid: self.grid.update(row, Line { wrapped: true, ..self.grid[row] }),
            ..self
        }
    }

    /// The columns `from..to` of the cursor's row replaced by `value`.
    pub open spec fn line_erased(self, from: int, to: int, value: char) -> Screen {
        let row = self.place.row;
        if row < self.place.rows {
            let line = self.grid[row];
            Screen {
                grid: self.grid.update(
                    row,
                    Line {
                        cells: Seq::new(
                            line.cells.len(),
                            |c: int|
                                if from <= c < to {
                                    cell_with(value, self.color)
                                } else {
                                    line.cells[c]
                                },
                        ),
                        ..line
                    },
                ),
                ..self
            }.row_marked(row)
        } else {
            self
        }
    }

    /// A part of the screen replaced by blank cells.
    pub open spec fn part_erased(self, part: Part) -> Screen {
        Screen {
            grid: Seq::new(
                self.grid.len(),
                |r: int|
                    Line {
                        cells: Seq::new(
                            self.grid[r].cells.len(),
                            |c: int|
                                if part.covers(self.place, r, c) {
                                    cell_with('\0', self.color)
                                } else {
                                    self.grid[r].cells[c]
                                },
                        ),
                        wrapped: self.grid[r].wrapped,
                    },
            ),
            ..self
        }
    }

    /// Behind the last column the cursor goes to the next line, below the last
    /// row the screen scrolls.
    pub open spec fn settled(self) -> Screen {
        let s = if self.place.col >= self.place.cols {
            self.moved(0, self.place.row + 1)
        } else {
            self
        };
        if s.place.row >= s.place.rows {
            s.scrolled_up().moved(0, s.place.rows - 1)
        } else {
            s
        }
    }

    /// A character of `columns` columns printed. A newline erases the rest of
    /// the line first, a backspace blanks the cell that it moves to, a character
    /// of no columns leaves the cells alone.
    pub open spec fn printed(self, c: char, columns: int) -> Screen {
        let (col, row) = (self.place.col, self.place.row);
        let s = if c == '\n' {
            self.line_erased(col, self.place.cols, '\0').moved(0, row + 1)
        } else if c == BACKSPACE {
            let left = if col > 0 {
                col - 1
            } else {
                0
            };
            self.with_cell(left, row, cell_with(' ', self.color)).moved(left, row).row_marked(row)
        } else if columns > 0 {
            let put = self.with_glyph(c, columns).row_marked(row);
            if col + columns >= self.place.cols {
                put.wrapped().position(0, row + 1)
            } else {
                put.moved(col + columns, row)
            }
        } else {
            self
        };
        s.settled().cursor_marked()
    }

    /// A cursor sequence carried out.
    pub open spec fn sequenced(self, code: u8, params: Seq<u16>) -> Screen {
        if code == 0x73 {
            Screen { place: self.place.sequenced(code, params), ..self }
        } else {
            match self.place.sequence_target(code, params) {
                Some((col, row)) => self.position(col, row),
                None => self,
            }
        }
    }

    /// An erase sequence carried out; without a parameter it is a 0.
    pub open spec fn erased(self, code: u8, params: Seq<u16>) -> Screen {
        let how = if params.len() > 0 {
            params[0] as int
        } else {
            0
        };
        let (col, row) = (self.place.col, self.place.row);
        if code == 0x4a {
            if how == 0 {
                self.part_erased(Part::FromCursor).row_marked(row).row_marked(
                    if self.place.rows > 0 {
                        self.place.rows - 1
                    } else {
                        0
                    },
                )
            } else if how == 1 {
                self.part_erased(Part::BeforeCursor).row_marked(1).row_marked(row)
            } else if how == 2 {
                self.part_erased(Part::All).full_marked().position(0, 0)
            } else {
                self
            }
        } else if code == 0x4b {
            if how == 0 {
                self.line_erased(col, self.place.cols, '\0')
            } else if how == 1 {
                self.line_erased(0, col, '\0')
            } else if how == 2 {
                self.line_erased(0, self.place.cols, ' ')
            } else {
                self
            }
        } else {
            self
        }
    }

    /// The screen after an action.
    pub open spec fn applied(self, act: Act) -> Screen {
        match act {
            Act::Print(c) => self.printed(c, columns_of(glyph_width(c))),
            Act::Execute(byte) => if byte == 0x09 {
                self.position(self.place.tab_target().0, self.place.tab_target().1)
            } else if byte == 0x0a {
                self.printed('\n', 0)
            } else {
                self
            },
            Act::Csi { params, action } => if action == 0x4a || action == 0x4b {
                self.erased(action, params)
            } else if action == 0x6d {
                Screen { color: self.color.sgr(params), ..self }
            } else {
                self.sequenced(action, params)
            },
        }
    }

    /// The screen after a list of actions.
    pub open spec fn applied_all(self, acts: Seq<Act>) -> Screen
        decreases acts.len(),
    {
        if acts.len() == 0 {
            self
        } else {
            self.applied_all(acts.drop_last()).applied(acts.last())
        }
    }

    /// The screen with another damage summary.
    pub open spec fn with_damage(self, damage: Damage) -> Screen {
        Screen { damage, ..self }
    }
}

/// Scrolling keeps a screen well formed and the cursor where it is.
proof fn lemma_scrolled_by(s: Screen, n: nat)
    requires
        s.frame_wf(),
    ensures
        s.scrolled_by(n).frame_wf(),
        s.scrolled_by(n).place == s.place,
        s.scrolled_by(n).color == s.color,
    decreases n,
{
    if n > 0 {
        lemma_scrolled_by(s, (n - 1) as nat);
    }
}

proof fn lemma_position(s: Screen, col: int, row: int)
    requires
        s.wf(),
        0 <= col <= s.place.cols,
        0 <= row <= 65535,
        s.place.rows >= 1,
    ensures
        s.position(col, row).wf(),
        s.position(col, row).place == s.place.at(col, row),
{
    lemma_scrolled_by(s, s.place.scrolls_for(row));
}

/// A character that can be printed keeps a screen well formed and moves the
/// cursor as the place alone tells.
proof fn lemma_printed(s: Screen, c: char, columns: int)
    requires
        s.wf(),
        0 <= columns,
        s.place.can_print(c, columns),
    ensures
        s.printed(c, columns).wf(),
        s.printed(c, columns).place == s.place.printed(c, columns),
{
    let (col, row) = (s.place.col, s.place.row);
    if c == '\n' {
    } else if c == BACKSPACE {
        let left = if col > 0 {
            col - 1
        } else {
            0
        };
        let t = s.with_cell(left, row, cell_with(' ', s.color));
        assert(t.wf());
    } else if columns > 0 {
        let put = s.with_glyph(c, columns).row_marked(row);
        assert(put.wf());
        if col + columns >= s.place.cols {
            assert(put.wrapped().wf());
            lemma_position(put.wrapped(), 0, row + 1);
        }
    }
}

/// Every action that can be applied keeps a screen well formed: the grid keeps
/// its size, the scrollback its bound, the status row stays empty. The cursor
/// goes where the place alone tells.
pub proof fn law_applied_wf(s: Screen, act: Act)
    requires
        s.wf(),
        s.place.can_apply(act),
    ensures
        s.applied(act).wf(),
        s.applied(act).place == s.place.after(act),
        s.place.rows >= 2 ==> s.applied(act).status_row_empty() && s.applied(act).place.row >= 1,
{
    law_cursor_stays_on_content(s.place, act);
    match act {
        Act::Print(c) => {
            lemma_printed(s, c, columns_of(glyph_width(c)));
        },
        Act::Execute(byte) => {
            if byte == 0x09 {
                lemma_position(s, s.place.tab_target().0, s.place.tab_target().1);
            } else if byte == 0x0a {
                lemma_printed(s, '\n', 0);
            }
        },
        Act::Csi { params, action } => {
            if Place::is_full_erase(action, params) {
                let t = s.part_erased(Part::All).full_marked();
                assert(t.wf());
                lemma_position(t, 0, 0);
            } else {
                match s.place.sequence_target(action, params) {
                    Some((col, row)) => {
                        lemma_position(s, col, row);
                    },
                    None => {},
                }
            }
        },
    }
}

/// The rows of a grid as mathematical values.
pub open spec fn lines(rows: Seq<Row>) -> Seq<Line> {
    Seq::new(rows.len(), |r: int| rows[r]@)
}

/// The semantic state of one terminal session.
pub struct TerminalModel {
    pub size: ScreenSize,
    pub grid: Vec<Row>,
    pub scrollback: VecDeque<Row>,
    pub max_scrollback_rows: usize,
    pub cursor: ModelCursor,
    pub color: ColorState,
    pub damage: Damage,
}

impl View for TerminalModel {
    type V = Screen;

    open spec fn view(&self) -> Screen {
        Screen {
            place: place_of(self.size, self.cursor),
            grid: lines(self.grid@),
            scrollback: lines(self.scrollback@),
            max_scrollback: self.max_scrollback_rows as int,
            color: self.color,
            damage: self.damage,
        }
    }
}

impl TerminalModel {
    /// See `Screen::wf`.
    pub open spec fn wf(&self) -> bool {
        self@.wf()
    }

    /// An empty screen of this size with the cursor on the first content row.
    pub fn new(size: ScreenSize) -> (r: TerminalModel)
        ensures
            r.wf(),
            r@ == Screen::empty(size),
    {
        let color = ColorState::new();
        let mut grid: Vec<Row> = Vec::new();
        for i in 0..size.rows
            invariant
                grid@.len() == i,
                color == initial_colors(),
                forall|r: int|
                    0 <= r < i ==> (#[trigger] grid@[r])@ == blank_line(size.cols as int, color),
        {
            grid.push(Row::blank(size.cols, &color));
        }
        let width: usize = if size.cols > 0 { size.cols as usize } else { 1 };
        let row_bytes: usize = width * CELL_BYTES;
        let fit: usize = SCROLLBACK_BYTE_BUDGET / row_bytes;
        // One row is kept even if it alone exceeds the budget.
        let max_scrollback_rows: usize = if fit > 0 { fit } else { 1 };
        let r = TerminalModel {
            size,
            grid,
            scrollback: VecDeque::new(),
            max_scrollback_rows,
            cursor: ModelCursor::new(),
            color,
            damage: Damage::none(),
        };
        proof {
            assert(r@.grid =~= Screen::empty(size).grid);
            assert(r@.scrollback =~= Seq::empty());
        }
        r
    }

    /// Forget the damage of the last feed.
    pub fn reset_damage(&mut self)
        requires
            old(self).wf(),
        ensures
            final(self).wf(),
            final(self)@ == old(self)@.with_damage(no_damage()),
    {
        self.damage.reset();
    }

    fn set_cell(&mut self, col: u16, row: u16, cell: Cell)
        requires
            old(self)@.grid.len() == old(self).size.rows,
            forall|r: int|
                0 <= r < old(self)@.grid.len() ==> (#[trigger] old(self)@.grid[r]).cells.len()
                    == old(self).size.cols,
        ensures
            final(self)@ == old(self)@.with_cell(col as int, row as int, cell),
    {
        if (row as usize) < self.grid.len() && col < self.size.cols {
            assert(self@.grid[row as int].cells.len() == self.size.cols);
            self.grid[row as usize].cells[col as usize] = cell;
            proof {
                assert(self@.grid =~= old(self)@.with_cell(col as int, row as int, cell).grid);
            }
        }
    }

    /// The topmost content row scrolls off into the scrollback.
    fn scroll_up(&mut self)
        requires
            old(self)@.frame_wf(),
        ensures
            final(self)@.frame_wf(),
            final(self)@ == old(self)@.scrolled_up(),
    {
        let rows: usize = self.size.rows as usize;
        if rows <= 1 {
            return;
        }
        let ghost before = self@;
        let scrolled = self.grid.remove(1);
        self.scrollback.push_back(scrolled);
        if self.scrollback.len() > self.max_scrollback_rows {
            let _ = self.scrollback.pop_front();
        }
        let blank = Row::blank(self.size.cols, &self.color);
        self.grid.push(blank);
        self.damage.mark_full();
        proof {
            assert(self@.grid =~= before.scrolled_up().grid);
            assert(self@.scrollback =~= before.scrolled_up().scrollback);
            lemma_scrolled_by(before, 1);
            reveal_with_fuel(Screen::scrolled_by, 2);
        }
    }

    /// Set the cursor, mapping the status row to the first content row and
    /// scrolling where the target lies below the grid.
    fn position(&mut self, col: u16, row: u16)
        requires
            old(self).wf(),
            old(self).size.rows >= 1,
            col <= old(self).size.cols,
        ensures
            final(self).wf(),
            final(self)@ == old(self)@.position(col as int, row as int),
    {
        let ghost before = self@;
        let target: u16 = if row == 0 { 1 } else { row };
        let mut at: u16 = target;
        let ghost mut n: nat = 0;
        while at >= self.size.rows
            invariant
                self.wf(),
                before.wf(),
                self.size == old(self).size,
                self.size.rows >= 1,
                n == target - at,
                target >= self.size.rows ==> n <= target - self.size.rows + 1,
                n > 0 ==> target >= self.size.rows,
                self@ == before.scrolled_by(n),
            decreases at,
        {
            at = at - 1;
            self.scroll_up();
            proof {
                n = n + 1;
                lemma_scrolled_by(before, n);
            }
        }
        self.cursor.col = col;
        self.cursor.row = at;
        self.damage.mark_cursor();
        proof {
            lemma_scrolled_by(before, n);
            assert(n == before.place.scrolls_for(row as int));
            lemma_position(before, col as int, row as int);
        }
    }

    /// Print one character, whatever its width on screen.
    pub fn print_char(&mut self, c: char)
        requires
            old(self).wf(),
            old(self)@.place.can_print(c, columns_of(glyph_width(c))),
        ensures
            final(self).wf(),
            final(self)@ == old(self)@.printed(c, columns_of(glyph_width(c))),
    {
        let columns: u16 = char_columns(c);
        self.print_columns(c, columns);
    }

    /// Print one character that takes `columns` columns. A newline or a
    /// backspace moves the cursor, whatever `columns` says.
    pub fn print_columns(&mut self, c: char, columns: u16)
        requires
            old(self).wf(),
            columns <= 255,
            old(self)@.place.can_print(c, columns as int),
        ensures
            final(self).wf(),
            final(self)@ == old(self)@.printed(c, columns as int),
    {
        let ghost before = self@;
        proof {
            lemma_printed(before, c, columns as int);
        }
        if c == '\n' {
            self.clear_line_from_cursor();
            self.cursor.col = 0;
            self.cursor.row = self.cursor.row + 1;
        } else if c == BACKSPACE {
            // Move left and blank the vacated cell.
            self.cursor.col = if self.cursor.col > 0 { self.cursor.col - 1 } else { 0 };
            let blank = Cell::with(' ', &self.color);
            self.set_cell(self.cursor.col, self.cursor.row, blank);
            self.damage.mark_row(self.cursor.row);
        } else if columns > 0 {
            let col: u16 = self.cursor.col;
            let row: u16 = self.cursor.row;
            self.put_glyph(c, columns);
            self.damage.mark_row(row);
            if col + columns >= self.size.cols {
                self.grid[row as usize].wrapped = true;
                proof {
                    let put = before.with_glyph(c, columns as int).row_marked(row as int);
                    assert(self@.grid =~= put.wrapped().grid);
                    assert(put.wrapped().wf());
                }
                self.position(0, row + 1);
            } else {
                self.cursor.col = self.cursor.col + columns;
            }
        }
        self.settle();
        self.damage.mark_cursor();
    }

    /// Go to the next line behind the last column, scroll below the last row.
    fn settle(&mut self)
        requires
            old(self)@.frame_wf(),
            old(self)@.place.can_settle(),
        ensures
            final(self)@ == old(self)@.settled(),
    {
        if self.cursor.col >= self.size.cols {
            self.cursor.row = self.cursor.row + 1;
            self.cursor.col = 0;
        }
        if self.cursor.row >= self.size.rows {
            self.scroll_up();
            self.cursor.col = 0;
            self.cursor.row = self.size.rows - 1;
        }
    }

    /// Write a glyph's lead cell at the cursor and continuation cells behind it.
    fn put_glyph(&mut self, c: char, columns: u16)
        requires
            old(self).wf(),
            0 < columns <= 255,
            old(self).cursor.col + columns <= 65535,
        ensures
            final(self).wf(),
            final(self)@ == old(self)@.with_glyph(c, columns as int),
    {
        let ghost before = self@;
        let col: u16 = self.cursor.col;
        let row: u16 = self.cursor.row;
        let lead = Cell {
            value: c,
            fg_color: self.color.fg_color,
            bg_color: self.color.bg_color,
            width: columns as u8,
        };
        self.set_cell(col, row, lead);
        let ghost leading = self@;
        let mut i: u16 = 1;
        proof {
            assert(self@ =~~= leading.with_continuation(col + 1, col + i));
        }
        while i < columns && col + i < self.size.cols
            invariant
                before.wf(),
                leading == before.with_cell(col as int, row as int, lead),
                1 <= i <= columns <= 255,
                col == before.place.col,
                row == before.place.row,
                col + columns <= 65535,
                self@.place == before.place,
                self@ == leading.with_continuation(col + 1, col + i),
            decreases columns - i,
        {
            let hidden = Cell {
                value: '\0',
                fg_color: Color::plain(BaseColor::Invisible),
                bg_color: Color::plain(BaseColor::Invisible),
                width: 0,
            };
            self.set_cell(col + i, row, hidden);
            i = i + 1;
            proof {
                assert(self@ =~~= leading.with_continuation(col + 1, col + i));
            }
        }
        proof {
            assert(self@ =~~= before.with_glyph(c, columns as int));
        }
    }

    /// Replace the columns `from..to` of the cursor's row.
    fn clear_line_range(&mut self, from: u16, to: u16, value: char)
        requires
            old(self).wf(),
        ensures
            final(self).wf(),
            final(self)@ == old(self)@.line_erased(from as int, to as int, value),
    {
        let ghost before = self@;
        let row: u16 = self.cursor.row;
        if (row as usize) >= self.grid.len() {
            return;
        }
        let cell = Cell::with(value, &self.color);
        let mut c: u16 = from;
        proof {
            assert(self@.with_damage(before.damage.row_marked(row as int))
                =~~= before.line_erased(from as int, c as int, value));
        }
        while c < to && c < self.size.cols
            invariant
                before.wf(),
                self@.place == before.place,
                self@.damage == before.damage,
                self@.color == before.color,
                row == before.place.row,
                row < before.place.rows,
                cell == cell_with(value, before.color),
                from <= c,
                c <= to || c == from,
                self@.with_damage(before.damage.row_marked(row as int)) == before.line_erased(
                    from as int,
                    c as int,
                    value,
                ),
            decreases to - c,
        {
            self.set_cell(c, row, cell);
            c = c + 1;
            proof {
                assert(self@.with_damage(before.damage.row_marked(row as int))
                    =~~= before.line_erased(from as int, c as int, value));
            }
        }
        self.damage.mark_row(row);
        proof {
            assert(self@ =~~= before.line_erased(from as int, to as int, value));
        }
    }

    fn clear_line(&mut self)
        requires
            old(self).wf(),
        ensures
            final(self).wf(),
            final(self)@ == old(self)@.line_erased(0, old(self)@.place.cols, ' '),
    {
        // A whole line is cleared to spaces, not to blanks.
        self.clear_line_range(0, self.size.cols, ' ');
    }

    fn clear_line_to_cursor(&mut self)
        requires
            old(self).wf(),
        ensures
            final(self).wf(),
            final(self)@ == old(self)@.line_erased(0, old(self)@.place.col, '\0'),
    {
        self.clear_line_range(0, self.cursor.col, '\0');
    }

    fn clear_line_from_cursor(&mut self)
        requires
            old(self).wf(),
        ensures
            final(self).wf(),
            final(self)@ == old(self)@.line_erased(
                old(self)@.place.col,
                old(self)@.place.cols,
                '\0',
            ),
    {
        self.clear_line_range(self.cursor.col, self.size.cols, '\0');
    }

    /// Replace the cells of a part of the screen by blanks.
    fn fill_cells(&mut self, part: Part)
        requires
            old(self).wf(),
        ensures
            final(self).wf(),
            final(self)@ == old(self)@.part_erased(part),
    {
        let ghost before = self@;
        let ghost after = before.part_erased(part);
        let cell = Cell::with('\0', &self.color);
        let cols: usize = self.size.cols as usize;
        let at_row: usize = self.cursor.row as usize;
        let at_col: usize = self.cursor.col as usize;
        let rows: usize = self.grid.len();
        for r in 0..rows
            invariant
                before.wf(),
                after == before.part_erased(part),
                rows == before.grid.len(),
                cols == before.place.cols,
                at_row == before.place.row,
                at_col == before.place.col,
                cell == cell_with('\0', before.color),
                self@.place == before.place,
                self@.color == before.color,
                self@.damage == before.damage,
                self@.scrollback == before.scrollback,
                self@.max_scrollback == before.max_scrollback,
                self.grid@.len() == rows,
                forall|q: int| 0 <= q < r ==> (#[trigger] self@.grid[q]) == after.grid[q],
                forall|q: int| r <= q < rows ==> (#[trigger] self@.grid[q]) == before.grid[q],
        {
            assert(self@.grid[r as int] == before.grid[r as int]);
            for c in 0..cols
                invariant
                    before.wf(),
                    after == before.part_erased(part),
                    r < rows,
                    rows == before.grid.len(),
                    cols == before.place.cols,
                    at_row == before.place.row,
                    at_col == before.place.col,
                    cell == cell_with('\0', before.color),
                    self@.place == before.place,
                    self@.color == before.color,
                    self@.damage == before.damage,
                    self@.scrollback == before.scrollback,
                    self@.max_scrollback == before.max_scrollback,
                    self.grid@.len() == rows,
                    self@.grid[r as int].cells.len() == cols,
                    self@.grid[r as int].wrapped == before.grid[r as int].wrapped,
                    forall|k: int|
                        0 <= k < c ==> (#[trigger] self@.grid[r as int].cells[k])
                            == after.grid[r as int].cells[k],
                    forall|k: int|
                        c <= k < cols ==> (#[trigger] self@.grid[r as int].cells[k])
                            == before.grid[r as int].cells[k],
                    forall|q: int| 0 <= q < r ==> (#[trigger] self@.grid[q]) == after.grid[q],
                    forall|q: int| r < q < rows ==> (#[trigger] self@.grid[q]) == before.grid[q],
            {
                let before_cursor = r < at_row || (r == at_row && c < at_col);
                let covered = match part {
                    Part::All => true,
                    Part::BeforeCursor => before_cursor,
                    Part::FromCursor => !before_cursor,
                };
                if covered {
                    let ghost mid_rows = self.grid@;
                    let ghost mid = self@.grid;
                    self.grid[r].cells[c] = cell;
                    proof {
                        assert forall|q: int| 0 <= q < rows && q != r implies (
                        #[trigger] self@.grid[q]) == mid[q] by {
                            assert(mid[q] == mid_rows[q]@);
                            assert(self.grid@[q] == mid_rows[q]);
                        }
                    }
                }
            }
            proof {
                assert(self@.grid[r as int] =~= after.grid[r as int]);
            }
        }
        proof {
            assert(self@.grid =~= after.grid);
        }
    }

    fn clear_screen(&mut self)
        requires
            old(self).wf(),
        ensures
            final(self).wf(),
            final(self)@ == old(self)@.part_erased(Part::All).full_marked(),
    {
        self.fill_cells(Part::All);
        self.damage.mark_full();
    }

    fn clear_screen_to_cursor(&mut self)
        requires
            old(self).wf(),
        ensures
            final(self).wf(),
            final(self)@ == old(self)@.erased(0x4a, seq![1u16]),
    {
        self.fill_cells(Part::BeforeCursor);
        self.damage.mark_range(1, self.cursor.row);
    }

    fn clear_screen_from_cursor(&mut self)
        requires
            old(self).wf(),
        ensures
            final(self).wf(),
            final(self)@ == old(self)@.erased(0x4a, seq![0u16]),
    {
        self.fill_cells(Part::FromCursor);
        let last: u16 = if self.size.rows > 0 { self.size.rows - 1 } else { 0 };
        self.damage.mark_range(self.cursor.row, last);
    }

    /// Move the cursor to the next tab stop, or to the next line.
    pub fn handle_tab(&mut self)
        requires
            old(self).wf(),
            old(self)@.place.can_tab(),
        ensures
            final(self).wf(),
            final(self)@ == old(self)@.applied(Act::Execute(0x09)),
    {
        let (col, row) = tab_target(self.size, self.cursor);
        proof {
            law_cursor_stays_on_content(self@.place, Act::Execute(0x09));
        }
        self.position(col, row);
    }

    /// Move, save or restore the cursor.
    pub fn handle_ansi_cursor_sequence(&mut self, code: u8, params: &Vec<u16>)
        requires
            old(self).wf(),
            old(self)@.place.can_sequence(code, params@),
        ensures
            final(self).wf(),
            final(self)@ == old(self)@.sequenced(code, params@),
    {
        if code == 0x73 {
            self.cursor.saved_col = self.cursor.col;
            self.cursor.saved_row = self.cursor.row;
            return;
        }
        if let Some((col, row)) = sequence_target(self.size, self.cursor, code, params) {
            self.position(col, row);
        }
    }

    /// Erase a part of the screen or of the cursor's line.
    pub fn handle_ansi_erase_sequence(&mut self, code: u8, params: &Vec<u16>)
        requires
            old(self).wf(),
            Place::is_full_erase(code, params@) ==> old(self).size.rows >= 1,
        ensures
            final(self).wf(),
            final(self)@ == old(self)@.erased(code, params@),
    {
        let how: u16 = if params.len() > 0 { params[0] } else { 0 };
        if code == 0x4a {
            if how == 0 {
                self.clear_screen_from_cursor();
            } else if how == 1 {
                self.clear_screen_to_cursor();
            } else if how == 2 {
                self.clear_screen();
                self.position(0, 0);
            }
        } else if code == 0x4b {
            if how == 0 {
                self.clear_line_from_cursor();
            } else if how == 1 {
                self.clear_line_to_cursor();
            } else if how == 2 {
                self.clear_line();
            }
        }
    }

    /// A control character: tab and line feed act, every other is ignored.
    pub fn execute(&mut self, byte: u8)
        requires
            old(self).wf(),
            old(self)@.place.can_apply(Act::Execute(byte)),
        ensures
            final(self).wf(),
            final(self)@ == old(self)@.applied(Act::Execute(byte)),
    {
        if byte == 0x09 {
            self.handle_tab();
        } else if byte == 0x0a {
            self.print_columns('\n', 0);
        }
    }

    /// A control sequence: cursor, erase and colour sequences act, every other
    /// is ignored.
    pub fn csi_dispatch(&mut self, params: &Vec<u16>, action: u8)
        requires
            old(self).wf(),
            old(self)@.place.can_apply(Act::Csi { params: params@, action }),
        ensures
            final(self).wf(),
            final(self)@ == old(self)@.applied(Act::Csi { params: params@, action }),
    {
        match action {
            0x4a | 0x4b => self.handle_ansi_erase_sequence(action, params),
            0x6d => self.color.handle_ansi_color(params),
            0x41 | 0x42 | 0x43 | 0x44 | 0x45 | 0x46 | 0x47 | 0x48 | 0x66 | 0x6e | 0x73 | 0x75 => {
                self.handle_ansi_cursor_sequence(action, params)
            },
            _ => {},
        }
    }

    /// Carry out one action of the parser.
    pub fn apply(&mut self, action: &AnsiAction)
        requires
            old(self).wf(),
            old(self)@.place.can_apply(action@),
        ensures
            final(self).wf(),
            final(self)@ == old(self)@.applied(action@),
    {
        match action {
            AnsiAction::Print(c) => self.print_char(*c),
            AnsiAction::Execute(byte) => self.execute(*byte),
            AnsiAction::Csi { params, action } => self.csi_dispatch(params, *action),
        }
    }
}

/// The damage of `after` tells what changed since `before`: a content row whose
/// cells changed is covered, and so is every row covered before; a cursor that
/// moved is reported.
pub open spec fn damage_tells(before: Screen, after: Screen) -> bool {
    &&& after.grid.len() == before.grid.len()
    &&& forall|r: int|
        1 <= r < before.grid.len() && (#[trigger] after.grid[r]).cells != before.grid[r].cells
            ==> after.damage.covers(r)
    &&& forall|r: int| #[trigger] before.damage.covers(r) ==> after.damage.covers(r)
    &&& after.place.col != before.place.col || after.place.row != before.place.row
        ==> after.damage.cursor_changed
    &&& before.damage.cursor_changed ==> after.damage.cursor_changed
}

proof fn lemma_scroll_damage(s: Screen, n: nat)
    requires
        s.frame_wf(),
    ensures
        n > 0 && s.place.rows >= 2 ==> s.scrolled_by(n).damage.full,
        n == 0 || s.place.rows < 2 ==> s.scrolled_by(n) == s,
        s.scrolled_by(n).damage == (Damage { full: s.scrolled_by(n).damage.full, ..s.damage }),
        s.damage.full ==> s.scrolled_by(n).damage.full,
        s.scrolled_by(n).grid.len() == s.grid.len(),
    decreases n,
{
    if n > 0 {
        lemma_scroll_damage(s, (n - 1) as nat);
        lemma_scrolled_by(s, (n - 1) as nat);
    }
}

proof fn lemma_position_damage(s: Screen, col: int, row: int)
    requires
        s.wf(),
        s.place.rows >= 1,
    ensures
        damage_tells(s, s.position(col, row)),
{
    lemma_scroll_damage(s, s.place.scrolls_for(row));
}

proof fn lemma_settled_damage(s: Screen)
    requires
        s.frame_wf(),
    ensures
        damage_tells(s, s.settled().cursor_marked()),
{
}

pub proof fn lemma_damage_transitive(a: Screen, b: Screen, c: Screen)
    requires
        damage_tells(a, b),
        damage_tells(b, c),
    ensures
        damage_tells(a, c),
{
    assert forall|r: int|
        1 <= r < a.grid.len() && (#[trigger] c.grid[r]).cells != a.grid[r].cells implies c.damage.covers(r) by {
        if b.grid[r].cells != a.grid[r].cells {
            assert(b.damage.covers(r));
        }
    }
}

proof fn lemma_printed_damage(s: Screen, c: char, columns: int)
    requires
        s.wf(),
        0 <= columns,
        s.place.can_print(c, columns),
    ensures
        damage_tells(s, s.printed(c, columns)),
{
    let (col, row) = (s.place.col, s.place.row);
    if c == '\n' {
        let t = s.line_erased(col, s.place.cols, '\0');
        lemma_settled_damage(t.moved(0, row + 1));
    } else if c == BACKSPACE {
        let left = if col > 0 {
            col - 1
        } else {
            0
        };
        let t = s.with_cell(left, row, cell_with(' ', s.color)).moved(left, row).row_marked(row);
        lemma_settled_damage(t);
    } else if columns > 0 {
        let put = s.with_glyph(c, columns).row_marked(row);
        assert(put.wf());
        assert(damage_tells(s, put));
        if col + columns >= s.place.cols {
            let w = put.wrapped();
            assert(w.wf());
            assert(damage_tells(put, w));
            lemma_position_damage(w, 0, row + 1);
            lemma_position(w, 0, row + 1);
            lemma_settled_damage(w.position(0, row + 1));
            lemma_damage_transitive(s, put, w);
            lemma_damage_transitive(s, w, w.position(0, row + 1));
            lemma_damage_transitive(s, w.position(0, row + 1), s.printed(c, columns));
        } else {
            lemma_settled_damage(put.moved(col + columns, row));
        }
    } else {
        lemma_settled_damage(s);
    }
}

/// Every action reports what it changed.
pub proof fn law_damage_tells(s: Screen, act: Act)
    requires
        s.wf(),
        s.place.can_apply(act),
    ensures
        damage_tells(s, s.applied(act)),
{
    match act {
        Act::Print(c) => {
            lemma_printed_damage(s, c, columns_of(glyph_width(c)));
        },
        Act::Execute(byte) => {
            if byte == 0x09 {
                lemma_position_damage(s, s.place.tab_target().0, s.place.tab_target().1);
            } else if byte == 0x0a {
                lemma_printed_damage(s, '\n', 0);
            }
        },
        Act::Csi { params, action } => {
            if action == 0x4a || action == 0x4b {
                lemma_erased_damage(s, action, params);
            } else if action != 0x6d {
                match s.place.sequence_target(action, params) {
                    Some((col, row)) => {
                        lemma_position_damage(s, col, row);
                    },
                    None => {},
                }
            }
        },
    }
}

proof fn lemma_erased_damage(s: Screen, code: u8, params: Seq<u16>)
    requires
        s.wf(),
        Place::is_full_erase(code, params) ==> s.place.rows >= 1,
    ensures
        damage_tells(s, s.erased(code, params)),
{
    let how = if params.len() > 0 {
        params[0] as int
    } else {
        0
    };
    if code == 0x4a {
        if how == 2 {
            let t = s.part_erased(Part::All).full_marked();
            assert(t.wf());
            assert(damage_tells(s, t));
            lemma_position_damage(t, 0, 0);
            lemma_damage_transitive(s, t, t.position(0, 0));
        } else if how == 1 {
            lemma_erased_before_damage(s);
        } else if how == 0 {
            lemma_erased_from_damage(s);
        }
    }
}

proof fn lemma_erased_from_damage(s: Screen)
    requires
        s.wf(),
    ensures
        damage_tells(s, s.erased(0x4a, seq![0u16])),
{
    let t = s.erased(0x4a, seq![0u16]);
    assert forall|r: int|
        1 <= r < s.grid.len() && (#[trigger] t.grid[r]).cells != s.grid[r].cells implies t.damage.covers(
        r,
    ) by {
        if r < s.place.row {
            assert(t.grid[r].cells =~= s.grid[r].cells);
        }
    }
}

proof fn lemma_erased_before_damage(s: Screen)
    requires
        s.wf(),
    ensures
        damage_tells(s, s.erased(0x4a, seq![1u16])),
{
    let t = s.erased(0x4a, seq![1u16]);
    assert forall|r: int|
        1 <= r < s.grid.len() && (#[trigger] t.grid[r]).cells != s.grid[r].cells implies t.damage.covers(
        r,
    ) by {
        if r > s.place.row {
            assert(t.grid[r].cells =~= s.grid[r].cells);
        }
    }
}

/// Two screens that differ in their damage summary at most.
pub open spec fn same_content(s: Screen, t: Screen) -> bool {
    &&& s.place == t.place
    &&& s.grid == t.grid
    &&& s.scrollback == t.scrollback
    &&& s.max_scrollback == t.max_scrollback
    &&& s.color == t.color
}

proof fn lemma_scroll_content(s: Screen, t: Screen, n: nat)
    requires
        same_content(s, t),
    ensures
        same_content(s.scrolled_by(n), t.scrolled_by(n)),
        same_content(s.scrolled_up(), t.scrolled_up()),
    decreases n,
{
    assert(s.scrolled_up().grid =~= t.scrolled_up().grid);
    if n > 0 {
        let a = s.scrolled_by((n - 1) as nat);
        let b = t.scrolled_by((n - 1) as nat);
        lemma_scroll_content(s, t, (n - 1) as nat);
        assert(a.scrolled_up().grid =~= b.scrolled_up().grid);
    }
}

proof fn lemma_position_content(s: Screen, t: Screen, col: int, row: int)
    requires
        same_content(s, t),
    ensures
        same_content(s.position(col, row), t.position(col, row)),
{
    lemma_scroll_content(s, t, s.place.scrolls_for(row));
}

proof fn lemma_settled_content(s: Screen, t: Screen)
    requires
        same_content(s, t),
    ensures
        same_content(s.settled(), t.settled()),
{
    lemma_scroll_content(s, t, 0);
    lemma_scroll_content(s.moved(0, s.place.row + 1), t.moved(0, t.place.row + 1), 0);
}

proof fn lemma_line_erased_content(s: Screen, t: Screen, from: int, to: int, value: char)
    requires
        same_content(s, t),
    ensures
        same_content(s.line_erased(from, to, value), t.line_erased(from, to, value)),
{
    let (a, b) = (s.line_erased(from, to, value), t.line_erased(from, to, value));
    assert(a.grid =~~= b.grid);
}

proof fn lemma_part_erased_content(s: Screen, t: Screen, part: Part)
    requires
        same_content(s, t),
    ensures
        same_content(s.part_erased(part), t.part_erased(part)),
{
    let (a, b) = (s.part_erased(part), t.part_erased(part));
    assert(a.grid =~~= b.grid);
}

proof fn lemma_printed_content(s: Screen, t: Screen, c: char, columns: int)
    requires
        same_content(s, t),
    ensures
        same_content(s.printed(c, columns), t.printed(c, columns)),
{
    let (col, row) = (s.place.col, s.place.row);
    if c == '\n' {
        let cols = s.place.cols;
        lemma_line_erased_content(s, t, col, cols, '\0');
        lemma_settled_content(
            s.line_erased(col, cols, '\0').moved(0, row + 1),
            t.line_erased(col, cols, '\0').moved(0, row + 1),
        );
    } else if c == BACKSPACE {
        let left = if col > 0 {
            col - 1
        } else {
            0
        };
        let cell = cell_with(' ', s.color);
        lemma_settled_content(
            s.with_cell(left, row, cell).moved(left, row).row_marked(row),
            t.with_cell(left, row, cell).moved(left, row).row_marked(row),
        );
    } else if columns > 0 {
        let a = s.with_glyph(c, columns).row_marked(row);
        let b = t.with_glyph(c, columns).row_marked(row);
        if col + columns >= s.place.cols {
            lemma_position_content(a.wrapped(), b.wrapped(), 0, row + 1);
            lemma_settled_content(
                a.wrapped().position(0, row + 1),
                b.wrapped().position(0, row + 1),
            );
        } else {
            lemma_settled_content(a.moved(col + columns, row), b.moved(col + columns, row));
        }
    } else {
        lemma_settled_content(s, t);
    }
}

proof fn lemma_erased_content(s: Screen, t: Screen, code: u8, params: Seq<u16>)
    requires
        same_content(s, t),
    ensures
        same_content(s.erased(code, params), t.erased(code, params)),
{
    let (col, cols) = (s.place.col, s.place.cols);
    lemma_line_erased_content(s, t, col, cols, '\0');
    lemma_line_erased_content(s, t, 0, col, '\0');
    lemma_line_erased_content(s, t, 0, cols, ' ');
    lemma_part_erased_content(s, t, Part::All);
    lemma_part_erased_content(s, t, Part::BeforeCursor);
    lemma_part_erased_content(s, t, Part::FromCursor);
    lemma_position_content(
        s.part_erased(Part::All).full_marked(),
        t.part_erased(Part::All).full_marked(),
        0,
        0,
    );
}

/// What an action leaves on the screen does not depend on the damage summary.
pub proof fn law_applied_content(s: Screen, t: Screen, act: Act)
    requires
        same_content(s, t),
    ensures
        same_content(s.applied(act), t.applied(act)),
{
    match act {
        Act::Print(c) => {
            lemma_printed_content(s, t, c, columns_of(glyph_width(c)));
        },
        Act::Execute(byte) => {
            if byte == 0x09 {
                lemma_position_content(s, t, s.place.tab_target().0, s.place.tab_target().1);
            } else if byte == 0x0a {
                lemma_printed_content(s, t, '\n', 0);
            }
        },
        Act::Csi { params, action } => {
            if action == 0x4a || action == 0x4b {
                lemma_erased_content(s, t, action, params);
            } else if action != 0x6d {
                match s.place.sequence_target(action, params) {
                    Some((col, row)) => {
                        lemma_position_content(s, t, col, row);
                    },
                    None => {},
                }
            }
        },
    }
}

} // verus!
