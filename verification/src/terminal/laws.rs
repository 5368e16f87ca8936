//! What the screen does, told cell by cell.

use vstd::prelude::*;

use crate::terminal::action::Act;
use crate::terminal::color::{BaseColor, ColorState};
use crate::terminal::glyph::{columns_of, glyph_width};
use crate::terminal::model::{Cell, Damage, Line, Screen, ScreenSize, TerminalModel, BACKSPACE};

verus! {

/// A cell that shows `value` in the colours in force.
pub open spec fn shows(cell: Cell, value: char, width: int, color: ColorState) -> bool {
    &&& cell.value == value
    &&& cell.width == width
    &&& cell.fg_color == color.fg_color
    &&& cell.bg_color == color.bg_color
}

/// A row of empty cells in the colours in force that did not end in a wrap.
pub open spec fn is_blank_row(line: Line, cols: int, color: ColorState) -> bool {
    &&& line.cells.len() == cols
    &&& !line.wrapped
    &&& forall|c: int| 0 <= c < cols ==> shows(#[trigger] line.cells[c], '\0', 1, color)
}

/// The row `after` is the row `before` with the columns `from..to` holding `value`
/// in the colours in force.
pub open spec fn filled(
    before: Line,
    after: Line,
    from: int,
    to: int,
    value: char,
    color: ColorState,
) -> bool {
    &&& after.cells.len() == before.cells.len()
    &&& after.wrapped == before.wrapped
    &&& forall|c: int|
        0 <= c < before.cells.len() ==> if from <= c < to {
            shows(#[trigger] after.cells[c], value, 1, color)
        } else {
            after.cells[c] == before.cells[c]
        }
}

/// The two screens have the same size, the same colours and the same saved cursor.
pub open spec fn same_setting(s: Screen, t: Screen) -> bool {
    &&& t.place.cols == s.place.cols
    &&& t.place.rows == s.place.rows
    &&& t.place.saved_col == s.place.saved_col
    &&& t.place.saved_row == s.place.saved_row
    &&& t.color == s.color
    &&& t.max_scrollback == s.max_scrollback
    &&& t.grid.len() == s.grid.len()
}

/// The rows of the screen other than `row`, and the scrollback, are the same.
pub open spec fn same_elsewhere(s: Screen, t: Screen, row: int) -> bool {
    &&& t.scrollback == s.scrollback
    &&& forall|r: int| 0 <= r < s.grid.len() && r != row ==> #[trigger] t.grid[r] == s.grid[r]
}

/// One row was appended to the scrollback. The oldest one was dropped if there was no
/// room for one more.
pub open spec fn recorded(s: Screen, t: Screen) -> bool {
    let dropped: int = if s.scrollback.len() < s.max_scrollback {
        0
    } else {
        1
    };
    &&& t.scrollback.len() == s.scrollback.len() + 1 - dropped
    &&& forall|i: int|
        0 <= i < s.scrollback.len() - dropped ==> #[trigger] t.scrollback[i]
            == s.scrollback[i + dropped]
}

/// The screen moved up by one row: the content rows behind the first are each one row
/// higher, but for the cursor's row, which is the last and may have changed; the last
/// row is blank; the status row is untouched.
pub open spec fn moved_up(s: Screen, t: Screen) -> bool {
    let rows = s.place.rows;
    &&& t.grid[0] == s.grid[0]
    &&& forall|r: int| 1 <= r < rows - 2 ==> #[trigger] t.grid[r] == s.grid[r + 1]
    &&& is_blank_row(t.grid[rows - 1], s.place.cols, s.color)
    &&& recorded(s, t)
    &&& rows > 2 ==> t.scrollback.last() == s.grid[1]
    &&& t.damage.full
}

/// Where the last row of a screen is after the screen moved up by one row.
pub open spec fn former_last(s: Screen, t: Screen) -> Line {
    if s.place.rows > 2 {
        t.grid[s.place.rows - 2]
    } else {
        t.scrollback.last()
    }
}

proof fn lemma_scrolled(s: Screen)
    requires
        s.frame_wf(),
        s.place.rows >= 2,
    ensures
        ({
            let t = s.scrolled_up();
            let rows = s.place.rows;
            &&& t.grid.len() == rows
            &&& t.grid[0] == s.grid[0]
            &&& forall|r: int| 1 <= r < rows - 1 ==> #[trigger] t.grid[r] == s.grid[r + 1]
            &&& is_blank_row(t.grid[rows - 1], s.place.cols, s.color)
            &&& recorded(s, t)
            &&& t.scrollback.last() == s.grid[1]
            &&& t.damage.full
            &&& t.place == s.place
            &&& t.color == s.color
            &&& t.max_scrollback == s.max_scrollback
        }),
{
}

/// A line end in the last row: the topmost content row goes to the scrollback, every
/// other row moves up by one, and a blank row follows. What stood behind the cursor is
/// erased first.
pub proof fn law_line_end_scrolls(s: Screen)
    requires
        s.wf(),
        s.place.rows >= 2,
        s.place.row == s.place.rows - 1,
        s.place.cols >= 1,
    ensures
        ({
            let t = s.applied(Act::Execute(0x0a));
            &&& same_setting(s, t)
            &&& moved_up(s, t)
            &&& filled(
                s.grid[s.place.row],
                former_last(s, t),
                s.place.col,
                s.place.cols,
                '\0',
                s.color,
            )
            &&& t.place.col == 0
            &&& t.place.row == s.place.row
        }),
{
    let (col, row) = (s.place.col, s.place.row);
    let e = s.line_erased(col, s.place.cols, '\0').moved(0, row + 1);
    assert(e.frame_wf());
    lemma_scrolled(e);
    let t = s.applied(Act::Execute(0x0a));
    let u = e.scrolled_up();
    assert(t.grid == u.grid && t.scrollback == u.scrollback);
    assert forall|r: int| 1 <= r < s.place.rows - 2 implies #[trigger] t.grid[r] == s.grid[r
        + 1] by {
        assert(e.grid[r + 1] == s.grid[r + 1]);
    }
}

/// A line end above the last row: the cursor goes to the start of the next row, what
/// stood behind it is erased, and nothing else changes.
pub proof fn law_line_end_descends(s: Screen)
    requires
        s.wf(),
        s.place.rows >= 2,
        s.place.row < s.place.rows - 1,
        s.place.cols >= 1,
    ensures
        ({
            let t = s.applied(Act::Execute(0x0a));
            &&& same_setting(s, t)
            &&& same_elsewhere(s, t, s.place.row)
            &&& filled(
                s.grid[s.place.row],
                t.grid[s.place.row],
                s.place.col,
                s.place.cols,
                '\0',
                s.color,
            )
            &&& t.place.col == 0
            &&& t.place.row == s.place.row + 1
        }),
{
}

/// A character was put into a row at `col` in the colours in force: its first cell
/// holds it and tells its width, the further cells that it covers continue it, and the
/// others are as they were.
pub open spec fn put_into(
    before: Line,
    after: Line,
    col: int,
    c: char,
    columns: int,
    color: ColorState,
) -> bool {
    &&& after.cells.len() == before.cells.len()
    &&& forall|j: int|
        0 <= j < before.cells.len() ==> if j == col {
            shows(#[trigger] after.cells[j], c, columns, color)
        } else if col < j < col + columns {
            &&& after.cells[j].value == '\0'
            &&& after.cells[j].width == 0
            &&& after.cells[j].fg_color.base == BaseColor::Invisible
            &&& after.cells[j].bg_color.base == BaseColor::Invisible
        } else {
            after.cells[j] == before.cells[j]
        }
}

/// A character with room behind it in the row: its cell has exactly the colours in
/// force, the cursor goes behind it, and nothing else changes.
pub proof fn law_print(s: Screen, c: char)
    requires
        s.wf(),
        s.place.rows >= 2,
        c != '\n',
        c != BACKSPACE,
        0 < columns_of(glyph_width(c)) <= 255,
        s.place.col + columns_of(glyph_width(c)) < s.place.cols,
    ensures
        ({
            let t = s.applied(Act::Print(c));
            let columns = columns_of(glyph_width(c));
            &&& same_setting(s, t)
            &&& same_elsewhere(s, t, s.place.row)
            &&& put_into(
                s.grid[s.place.row],
                t.grid[s.place.row],
                s.place.col,
                c,
                columns,
                s.color,
            )
            &&& t.grid[s.place.row].wrapped == s.grid[s.place.row].wrapped
            &&& t.place.col == s.place.col + columns
            &&& t.place.row == s.place.row
        }),
{
}

/// A character that reaches the end of a row above the last: it is put there as far as
/// the row goes, the row is marked as wrapped, and the cursor goes to the start of the
/// next row.
pub proof fn law_print_wraps(s: Screen, c: char)
    requires
        s.wf(),
        s.place.rows >= 2,
        c != '\n',
        c != BACKSPACE,
        0 < columns_of(glyph_width(c)) <= 255,
        s.place.cols >= 1,
        s.place.col + columns_of(glyph_width(c)) >= s.place.cols,
        s.place.row < s.place.rows - 1,
    ensures
        ({
            let t = s.applied(Act::Print(c));
            &&& same_setting(s, t)
            &&& same_elsewhere(s, t, s.place.row)
            &&& put_into(
                s.grid[s.place.row],
                t.grid[s.place.row],
                s.place.col,
                c,
                columns_of(glyph_width(c)),
                s.color,
            )
            &&& t.grid[s.place.row].wrapped
            &&& t.place.col == 0
            &&& t.place.row == s.place.row + 1
        }),
{
    let columns = columns_of(glyph_width(c));
    let put = s.with_glyph(c, columns).row_marked(s.place.row).wrapped();
    assert(put.scrolled_by(0) == put);
    assert(put.place.scrolls_for(s.place.row + 1) == 0);
}

/// A character that reaches the end of the last row: it is put there, and the screen
/// moves up by one row.
pub proof fn law_print_wraps_and_scrolls(s: Screen, c: char)
    requires
        s.wf(),
        s.place.rows >= 2,
        c != '\n',
        c != BACKSPACE,
        0 < columns_of(glyph_width(c)) <= 255,
        s.place.cols >= 1,
        s.place.col + columns_of(glyph_width(c)) >= s.place.cols,
        s.place.row == s.place.rows - 1,
    ensures
        ({
            let t = s.applied(Act::Print(c));
            &&& same_setting(s, t)
            &&& moved_up(s, t)
            &&& put_into(
                s.grid[s.place.row],
                former_last(s, t),
                s.place.col,
                c,
                columns_of(glyph_width(c)),
                s.color,
            )
            &&& former_last(s, t).wrapped
            &&& t.place.col == 0
            &&& t.place.row == s.place.row
        }),
{
    let columns = columns_of(glyph_width(c));
    let put = s.with_glyph(c, columns).row_marked(s.place.row).wrapped();
    assert(put.frame_wf());
    lemma_scrolled(put);
    let u = put.scrolled_up();
    assert(put.place.scrolls_for(s.place.row + 1) == 1);
    reveal_with_fuel(Screen::scrolled_by, 2);
    assert(put.scrolled_by(1) == u);
    let t = s.applied(Act::Print(c));
    assert(t.grid == u.grid && t.scrollback == u.scrollback);
    assert forall|r: int| 1 <= r < s.place.rows - 2 implies #[trigger] t.grid[r] == s.grid[r
        + 1] by {
        assert(put.grid[r + 1] == s.grid[r + 1]);
    }
}

/// A character that takes no column leaves no trace.
pub proof fn law_print_nothing(s: Screen, c: char)
    requires
        s.wf(),
        s.place.rows >= 2,
        s.place.col < s.place.cols,
        c != '\n',
        c != BACKSPACE,
        columns_of(glyph_width(c)) == 0,
    ensures
        ({
            let t = s.applied(Act::Print(c));
            &&& t.place == s.place
            &&& t.grid == s.grid
            &&& t.scrollback == s.scrollback
            &&& t.color == s.color
        }),
{
}

/// A backspace goes one column to the left, unless it is at the first, and puts a space
/// there.
pub proof fn law_backspace(s: Screen)
    requires
        s.wf(),
        s.place.rows >= 2,
        0 < s.place.cols,
    ensures
        ({
            let t = s.applied(Act::Print(BACKSPACE));
            let left = if s.place.col > 0 {
                s.place.col - 1
            } else {
                0
            };
            &&& same_setting(s, t)
            &&& same_elsewhere(s, t, s.place.row)
            &&& filled(s.grid[s.place.row], t.grid[s.place.row], left, left + 1, ' ', s.color)
            &&& t.place.col == left
            &&& t.place.row == s.place.row
        }),
{
}

/// Only the cursor moved, to `col` and `row`.
pub open spec fn only_moved(s: Screen, t: Screen, col: int, row: int) -> bool {
    &&& same_setting(s, t)
    &&& t.grid == s.grid
    &&& t.scrollback == s.scrollback
    &&& t.place.col == col
    &&& t.place.row == row
}

/// A control sequence with one number.
pub open spec fn csi(action: u8, n: u16) -> Act {
    Act::Csi { params: seq![n], action }
}

/// The number of steps that a parameter asks for: a 0 counts as a 1.
pub open spec fn count_of(n: u16) -> int {
    if n == 0 {
        1
    } else {
        n as int
    }
}

/// The cursor goes up and down within the content rows: up not beyond the first, down
/// not beyond the last. It keeps its column.
pub proof fn law_cursor_up_down(s: Screen, n: u16)
    requires
        s.wf(),
        s.place.rows >= 2,
    ensures
        s.place.row > count_of(n) ==> only_moved(
            s,
            s.applied(csi(0x41, n)),
            s.place.col,
            s.place.row - count_of(n),
        ),
        s.place.row == count_of(n) ==> only_moved(s, s.applied(csi(0x41, n)), s.place.col, 1),
        s.place.row + count_of(n) < s.place.rows ==> only_moved(
            s,
            s.applied(csi(0x42, n)),
            s.place.col,
            s.place.row + count_of(n),
        ),
        s.place.row + count_of(n) >= s.place.rows ==> only_moved(
            s,
            s.applied(csi(0x42, n)),
            s.place.col,
            s.place.rows - 1,
        ),
{
    assert(s.scrolled_by(0) == s);
}

/// The cursor goes left and right within its row, to the right not beyond the last
/// column.
pub proof fn law_cursor_left_right(s: Screen, n: u16)
    requires
        s.wf(),
        s.place.rows >= 2,
    ensures
        s.place.col >= count_of(n) ==> only_moved(
            s,
            s.applied(csi(0x44, n)),
            s.place.col - count_of(n),
            s.place.row,
        ),
        s.place.col + count_of(n) < s.place.cols ==> only_moved(
            s,
            s.applied(csi(0x43, n)),
            s.place.col + count_of(n),
            s.place.row,
        ),
        s.place.col + count_of(n) >= s.place.cols >= 1 ==> only_moved(
            s,
            s.applied(csi(0x43, n)),
            s.place.cols - 1,
            s.place.row,
        ),
{
    assert(s.scrolled_by(0) == s);
}

/// The cursor goes to the start of a row further down or up, and to a column of its row.
pub proof fn law_cursor_lines_and_column(s: Screen, n: u16)
    requires
        s.wf(),
        s.place.rows >= 2,
    ensures
        s.place.row + n + 1 < s.place.rows ==> only_moved(
            s,
            s.applied(csi(0x45, n)),
            0,
            s.place.row + n + 1,
        ),
        s.place.row + n + 1 >= s.place.rows ==> only_moved(
            s,
            s.applied(csi(0x45, n)),
            0,
            s.place.rows - 1,
        ),
        s.place.row > n + 1 ==> only_moved(s, s.applied(csi(0x46, n)), 0, s.place.row - n - 1),
        s.place.row == n + 1 ==> only_moved(s, s.applied(csi(0x46, n)), 0, 1),
        n < s.place.cols ==> only_moved(s, s.applied(csi(0x47, n)), n as int, s.place.row),
        n >= s.place.cols >= 1 ==> only_moved(
            s,
            s.applied(csi(0x47, n)),
            s.place.cols - 1,
            s.place.row,
        ),
{
    assert(s.scrolled_by(0) == s);
}

/// The cursor is set to a column and a row, in that order. The status row stands for
/// the first content row. Without both numbers it goes to the first content row's start.
pub proof fn law_cursor_set(s: Screen, action: u8, col: u16, row: u16)
    requires
        s.wf(),
        s.place.rows >= 2,
        action == 0x48 || action == 0x66,
    ensures
        col <= s.place.cols && 1 <= row < s.place.rows ==> only_moved(
            s,
            s.applied(Act::Csi { params: seq![col, row], action }),
            col as int,
            row as int,
        ),
        col <= s.place.cols && row == 0 ==> only_moved(
            s,
            s.applied(Act::Csi { params: seq![col, row], action }),
            col as int,
            1,
        ),
        col > s.place.cols >= 1 && row > s.place.rows ==> only_moved(
            s,
            s.applied(Act::Csi { params: seq![col, row], action }),
            s.place.cols - 1,
            s.place.rows - 1,
        ),
        only_moved(s, s.applied(Act::Csi { params: seq![], action }), 0, 1),
        only_moved(s, s.applied(csi(action, col)), 0, 1),
{
    assert(s.scrolled_by(0) == s);
}

/// Saving the cursor keeps its position for later and changes nothing else; restoring
/// brings the cursor there.
pub proof fn law_cursor_saved(s: Screen)
    requires
        s.wf(),
        s.place.rows >= 2,
    ensures
        ({
            let t = s.applied(Act::Csi { params: seq![0u16], action: 0x73 });
            &&& t.place.saved_col == s.place.col
            &&& t.place.saved_row == s.place.row
            &&& t.place.col == s.place.col
            &&& t.place.row == s.place.row
            &&& t.grid == s.grid
            &&& t.scrollback == s.scrollback
            &&& t.color == s.color
        }),
        only_moved(
            s,
            s.applied(Act::Csi { params: seq![0u16], action: 0x75 }),
            s.place.saved_col,
            s.place.saved_row,
        ),
{
    assert(s.scrolled_by(0) == s);
}

/// A tab goes to the next multiple of four columns, and to the start of the next row
/// where less than that is left of its own. In the last row the screen moves up.
pub proof fn law_tab(s: Screen)
    requires
        s.wf(),
        s.place.rows >= 2,
    ensures
        ({
            let t = s.applied(Act::Execute(0x09));
            if s.place.col + 4 < s.place.cols {
                &&& only_moved(s, t, t.place.col, s.place.row)
                &&& s.place.col < t.place.col <= s.place.col + 4
                &&& t.place.col % 4 == 0
            } else if s.place.row + 1 < s.place.rows {
                only_moved(s, t, 0, s.place.row + 1)
            } else {
                &&& same_setting(s, t)
                &&& moved_up(s, t)
                &&& former_last(s, t) == s.grid[s.place.row]
                &&& t.place.col == 0
                &&& t.place.row == s.place.row
            }
        }),
{
    assert(s.scrolled_by(0) == s);
    if s.place.col + 4 >= s.place.cols && s.place.row + 1 >= s.place.rows {
        lemma_scrolled(s);
        reveal_with_fuel(Screen::scrolled_by, 2);
        assert(s.scrolled_by(1) == s.scrolled_up());
    }
}

/// Erasing in the row: from the cursor on, up to the cursor, or all of it, which leaves
/// spaces where the others leave empty cells. The cursor stays.
pub proof fn law_erase_in_row(s: Screen)
    requires
        s.wf(),
        s.place.rows >= 2,
    ensures
        forall|n: u16|
            n <= 2 ==> {
                let t = #[trigger] s.applied(csi(0x4b, n));
                let row = s.place.row;
                &&& same_setting(s, t)
                &&& t.place == s.place
                &&& same_elsewhere(s, t, row)
                &&& n == 0 ==> filled(
                    s.grid[row],
                    t.grid[row],
                    s.place.col,
                    s.place.cols,
                    '\0',
                    s.color,
                )
                &&& n == 1 ==> filled(s.grid[row], t.grid[row], 0, s.place.col, '\0', s.color)
                &&& n == 2 ==> filled(s.grid[row], t.grid[row], 0, s.place.cols, ' ', s.color)
            },
{
}

/// Erasing in the screen: everything from the cursor on, or everything before it,
/// becomes empty in the colours in force, and everything else stays.
pub proof fn law_erase_in_screen(s: Screen, r: int, c: int)
    requires
        s.wf(),
        s.place.rows >= 2,
        0 <= r < s.place.rows,
        0 <= c < s.place.cols,
    ensures
        ({
            let behind = s.applied(csi(0x4a, 0));
            let ahead = s.applied(csi(0x4a, 1));
            let later = r > s.place.row || (r == s.place.row && c >= s.place.col);
            &&& same_setting(s, behind) && same_setting(s, ahead)
            &&& behind.place == s.place && ahead.place == s.place
            &&& behind.scrollback == s.scrollback && ahead.scrollback == s.scrollback
            &&& behind.grid[r].wrapped == s.grid[r].wrapped
            &&& ahead.grid[r].wrapped == s.grid[r].wrapped
            &&& if later {
                &&& shows(behind.grid[r].cells[c], '\0', 1, s.color)
                &&& ahead.grid[r].cells[c] == s.grid[r].cells[c]
            } else {
                &&& behind.grid[r].cells[c] == s.grid[r].cells[c]
                &&& shows(ahead.grid[r].cells[c], '\0', 1, s.color)
            }
        }),
{
}

/// Erasing the whole screen empties every cell, brings the cursor to the start of the
/// first content row, and keeps the scrollback.
pub proof fn law_erase_all(s: Screen, r: int, c: int)
    requires
        s.wf(),
        s.place.rows >= 2,
        0 <= r < s.place.rows,
        0 <= c < s.place.cols,
    ensures
        ({
            let t = s.applied(csi(0x4a, 2));
            &&& same_setting(s, t)
            &&& shows(t.grid[r].cells[c], '\0', 1, s.color)
            &&& t.scrollback == s.scrollback
            &&& t.place.col == 0
            &&& t.place.row == 1
            &&& t.damage.full
        }),
{
    let e = s.part_erased(crate::terminal::model::Part::All).full_marked();
    assert(e.scrolled_by(0) == e);
}

/// A colour sequence changes the colours in force and nothing that is on the screen.
pub proof fn law_color_sequence(s: Screen, params: Seq<u16>)
    ensures
        ({
            let t = s.applied(Act::Csi { params, action: 0x6d });
            &&& t.color == s.color.sgr(params)
            &&& t.grid == s.grid
            &&& t.scrollback == s.scrollback
            &&& t.place == s.place
            &&& t.damage == s.damage
        }),
{
}

/// Control characters other than the tab and the line end, and control sequences other
/// than those for the cursor, for erasing and for colours, are ignored.
pub proof fn law_others_are_ignored(s: Screen, byte: u8, params: Seq<u16>, action: u8)
    requires
        byte != 0x09,
        byte != 0x0a,
        !(0x41 <= action <= 0x48),
        action != 0x4a,
        action != 0x4b,
        action != 0x66,
        action != 0x6d,
        action != 0x73,
        action != 0x75,
    ensures
        s.applied(Act::Execute(byte)) == s,
        s.applied(Act::Csi { params, action }) == s,
{
}

/// A new screen is blank, white on black, with the cursor at the start of the first
/// content row and nothing in the scrollback.
pub proof fn law_new_screen(size: ScreenSize, r: int)
    requires
        0 <= r < size.rows,
    ensures
        ({
            let s = Screen::empty(size);
            &&& s.place.cols == size.cols
            &&& s.place.rows == size.rows
            &&& s.place.col == 0
            &&& s.place.row == 1
            &&& s.grid.len() == size.rows
            &&& is_blank_row(s.grid[r], size.cols as int, s.color)
            &&& s.color.fg_color.base == BaseColor::White
            &&& s.color.bg_color.base == BaseColor::Black
            &&& s.scrollback.len() == 0
            &&& !s.damage.full
        }),
{
}

/// The scrollback takes at most 256 KiB at 16 bytes a cell, but always one row, and it
/// could not take one row more.
pub proof fn law_scrollback_budget(s: Screen)
    requires
        s.wf(),
        s.place.cols >= 1,
    ensures
        s.scrollback.len() <= s.max_scrollback,
        s.max_scrollback == 1 || s.max_scrollback * (s.place.cols * 16) <= 262144,
        (s.max_scrollback + 1) * (s.place.cols * 16) > 262144,
{
    let row = s.place.cols * 16;
    let fit = 262144int / row;
    assert(fit * row <= 262144 && (fit + 1) * row > 262144) by (nonlinear_arith)
        requires
            row >= 16,
            fit == 262144int / row,
    ;
    if fit <= 0 {
        assert(2 * row > 262144) by (nonlinear_arith)
            requires
                fit <= 0,
                (fit + 1) * row > 262144,
                row >= 16,
        ;
    }
}

/// The rows `low..=high` were added to the dirty range, which reaches no further than it
/// has to; whether everything is dirty, and what scrolled, is as before.
pub open spec fn widened(before: Damage, after: Damage, low: int, high: int) -> bool {
    &&& after.full == before.full
    &&& after.scrolled == before.scrolled
    &&& after.dirty_min matches Some(min) && {
        &&& min <= low
        &&& min == low || before.dirty_min == Some(min)
        &&& before.dirty_min matches Some(m) ==> min <= m
    }
    &&& after.dirty_max matches Some(max) && {
        &&& max >= high
        &&& max == high || before.dirty_max == Some(max)
        &&& before.dirty_max matches Some(m) ==> max >= m
    }
}

/// A row that an action changes is a dirty one afterwards: the damage names it, or says
/// that everything is dirty. A cursor that moves is reported.
pub proof fn law_changes_are_named(s: Screen, act: Act, r: int)
    requires
        s.wf(),
        s.place.can_apply(act),
        1 <= r < s.grid.len(),
    ensures
        ({
            let t = s.applied(act);
            &&& t.grid[r].cells != s.grid[r].cells ==> t.damage.full || {
                &&& t.damage.dirty_min matches Some(min)
                &&& t.damage.dirty_max matches Some(max)
                &&& min <= r <= max
            }
            &&& t.place.col != s.place.col || t.place.row != s.place.row
                ==> t.damage.cursor_changed
        }),
{
    crate::terminal::model::law_damage_tells(s, act);
}

/// A character, a backspace and a line end that do not scroll make the cursor's row dirty
/// and no other.
pub proof fn law_damage_of_print(s: Screen, c: char)
    requires
        s.wf(),
        s.place.rows >= 2,
        s.place.cols >= 1,
        s.place.row < s.place.rows - 1,
        s.place.col < s.place.cols,
        0 < columns_of(glyph_width(c)) <= 255 || c == '\n' || c == BACKSPACE,
    ensures
        ({
            let t = s.applied(Act::Print(c));
            &&& widened(s.damage, t.damage, s.place.row, s.place.row)
            &&& t.damage.cursor_changed
        }),
{
    let columns = columns_of(glyph_width(c));
    let put = s.with_glyph(c, columns).row_marked(s.place.row).wrapped();
    assert(put.scrolled_by(0) == put);
    assert(put.place.scrolls_for(s.place.row + 1) == 0);
}

/// Erasing in a row makes this row dirty and no other. Erasing from the cursor on makes
/// the rows from the cursor's to the last dirty, erasing up to the cursor those from the
/// first content row to the cursor's. None of them moves the cursor.
pub proof fn law_damage_of_erase(s: Screen, how: u16)
    requires
        s.wf(),
        s.place.rows >= 2,
        s.place.cols >= 1,
        how <= 2,
    ensures
        ({
            let line = s.applied(Act::Csi { params: seq![how], action: 0x4b });
            let part = s.applied(Act::Csi { params: seq![how], action: 0x4a });
            &&& widened(s.damage, line.damage, s.place.row, s.place.row)
            &&& line.damage.cursor_changed == s.damage.cursor_changed
            &&& how == 0 ==> widened(s.damage, part.damage, s.place.row, s.place.rows - 1)
            &&& how == 1 ==> widened(s.damage, part.damage, 1, s.place.row)
            &&& how < 2 ==> part.damage.cursor_changed == s.damage.cursor_changed
            &&& how == 2 ==> part.damage.full
        }),
{
}

/// A change of colours does no damage.
pub proof fn law_damage_of_colors(s: Screen, params: Seq<u16>)
    ensures
        ({
            let t = s.applied(Act::Csi { params, action: 0x6d });
            t.damage == s.damage && t.grid == s.grid && t.place == s.place
        }),
{
}

/// A model stands for the screen that its fields hold, cell by cell.
pub proof fn law_model_is_screen(model: TerminalModel, r: int, c: int, k: int)
    requires
        0 <= r < model.grid@.len(),
        0 <= c < model.grid@[r].cells@.len(),
        0 <= k < model.scrollback@.len(),
    ensures
        ({
            let s = model@;
            &&& s.grid.len() == model.grid@.len()
            &&& s.grid[r].cells.len() == model.grid@[r].cells@.len()
            &&& s.grid[r].cells[c] == model.grid@[r].cells@[c]
            &&& s.grid[r].wrapped == model.grid@[r].wrapped
            &&& s.scrollback.len() == model.scrollback@.len()
            &&& s.scrollback[k].cells == model.scrollback@[k].cells@
            &&& s.scrollback[k].wrapped == model.scrollback@[k].wrapped
            &&& s.max_scrollback == model.max_scrollback_rows
            &&& s.place.cols == model.size.cols && s.place.rows == model.size.rows
            &&& s.place.col == model.cursor.col && s.place.row == model.cursor.row
            &&& s.place.saved_col == model.cursor.saved_col
            &&& s.place.saved_row == model.cursor.saved_row
            &&& s.color == model.color
            &&& s.damage == model.damage
        }),
{
}

} // verus!
