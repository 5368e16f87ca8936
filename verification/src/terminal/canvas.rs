//! What the drawing steps leave on the framebuffer.
//!
//! A canvas is a buffered picture and the surface that is seen. Carrying out the steps
//! of the presenter on it shows that what is seen is what the screen holds.

use vstd::prelude::*;

use crate::terminal::color::{BaseColor, Color};
use crate::terminal::display::{line_steps, rows_steps, Character, DisplayState, DrawStep, Shown};
use crate::terminal::model::{Cell, Damage, Line};

verus! {

/// A character as it was drawn.
pub struct Mark {
    pub glyph: char,
    pub fg: Color,
    pub bg: Color,
}

/// The buffered picture and the surface, by column and row.
#[verifier::ext_equal]
pub struct Canvas {
    pub buffer: Map<(int, int), Mark>,
    pub surface: Map<(int, int), Mark>,
}

impl Canvas {
    /// One step carried out. The status bar may put anything into row 0.
    pub open spec fn after(self, step: DrawStep) -> Canvas {
        match step {
            DrawStep::Glyph { col, row, fg, bg, glyph } => Canvas {
                buffer: self.buffer.insert((col as int, row as int), Mark { glyph, fg, bg }),
                ..self
            },
            DrawStep::Direct { col, row, fg, bg, glyph } => Canvas {
                surface: self.surface.insert((col as int, row as int), Mark { glyph, fg, bg }),
                ..self
            },
            DrawStep::Scroll(n) => Canvas {
                buffer: Map::new(
                    |at: (int, int)| self.buffer.contains_key((at.0, at.1 + n)),
                    |at: (int, int)| self.buffer[(at.0, at.1 + n)],
                ),
                ..self
            },
            DrawStep::StatusBar => Canvas {
                buffer: Map::new(
                    |at: (int, int)| self.buffer.contains_key(at) && at.1 != 0,
                    |at: (int, int)| self.buffer[at],
                ),
                ..self
            },
            DrawStep::FlushRows { from, count } => Canvas {
                surface: Map::new(
                    |at: (int, int)|
                        if from <= at.1 < from + count {
                            self.buffer.contains_key(at)
                        } else {
                            self.surface.contains_key(at)
                        },
                    |at: (int, int)|
                        if from <= at.1 < from + count {
                            self.buffer[at]
                        } else {
                            self.surface[at]
                        },
                ),
                ..self
            },
            DrawStep::FlushAll => Canvas { surface: self.buffer, ..self },
        }
    }

    /// The steps carried out one after the other.
    pub open spec fn after_all(self, steps: Seq<DrawStep>) -> Canvas
        decreases steps.len(),
    {
        if steps.len() == 0 {
            self
        } else {
            self.after_all(steps.drop_last()).after(steps.last())
        }
    }
}

/// The marks have this character in these colours at a place. An empty cell is seen as a
/// space.
pub open spec fn seen(
    marks: Map<(int, int), Mark>,
    col: int,
    row: int,
    value: char,
    fg: Color,
    bg: Color,
) -> bool {
    &&& marks.contains_key((col, row))
    &&& marks[(col, row)].fg == fg
    &&& marks[(col, row)].bg == bg
    &&& value == '\0' ==> marks[(col, row)].glyph == ' '
    &&& value != '\0' ==> marks[(col, row)].glyph == value
}

/// The marks have what a cell of the screen holds. A cell that continues a wide glyph is
/// covered by the cell before it.
pub open spec fn cell_seen(marks: Map<(int, int), Mark>, col: int, row: int, cell: Cell) -> bool {
    cell.width != 0 ==> seen(marks, col, row, cell.value, cell.fg_color, cell.bg_color)
}

/// The marks have what the presenter keeps of a cell.
pub open spec fn kept_seen(
    marks: Map<(int, int), Mark>,
    col: int,
    row: int,
    kept: Character,
) -> bool {
    kept.width != 0 ==> seen(marks, col, row, kept.value, kept.fg_color, kept.bg_color)
}

/// The canvas agrees with what the presenter takes to be on screen: the buffer in every
/// content row, the surface too but for the cell under a cursor that is shown.
pub open spec fn agrees(canvas: Canvas, shown: Shown) -> bool {
    forall|r: int, c: int|
        #![trigger shown.visible[r][c]]
        1 <= r < shown.rows && 0 <= c < shown.cols ==> {
            &&& kept_seen(canvas.buffer, c, r, shown.visible[r][c])
            &&& !(shown.cursor_visible && shown.cursor.0 == c && shown.cursor.1 == r)
                ==> kept_seen(canvas.surface, c, r, shown.visible[r][c])
        }
}

/// Two pictures are the same at a place.
spec fn same_at(a: Map<(int, int), Mark>, b: Map<(int, int), Mark>, col: int, row: int) -> bool {
    &&& a.contains_key((col, row)) <==> b.contains_key((col, row))
    &&& a.contains_key((col, row)) ==> a[(col, row)] == b[(col, row)]
}

proof fn lemma_after_concat(canvas: Canvas, a: Seq<DrawStep>, b: Seq<DrawStep>)
    ensures
        canvas.after_all(a + b) == canvas.after_all(a).after_all(b),
    decreases b.len(),
{
    if b.len() == 0 {
        assert(a + b =~= a);
    } else {
        assert((a + b).drop_last() =~= a + b.drop_last());
        lemma_after_concat(canvas, a, b.drop_last());
    }
}

proof fn lemma_after_push(canvas: Canvas, a: Seq<DrawStep>, step: DrawStep)
    ensures
        canvas.after_all(a.push(step)) == canvas.after_all(a).after(step),
{
    assert(a.push(step).drop_last() =~= a);
}

/// The first columns of a row are drawn into the buffer as the row has them, and nothing
/// else is touched.
proof fn lemma_row_drawn(canvas: Canvas, line: Line, row: u16, n: nat)
    requires
        n <= line.cells.len(),
        n <= 65535,
    ensures
        ({
            let t = canvas.after_all(line_steps(line, row, n));
            &&& t.surface == canvas.surface
            &&& forall|c: int| 0 <= c < n ==> cell_seen(t.buffer, c, row as int, #[trigger] line.cells[c])
            &&& forall|c: int, r: int|
                r != row ==> #[trigger] same_at(t.buffer, canvas.buffer, c, r)
        }),
    decreases n,
{
    if n > 0 {
        let m = (n - 1) as nat;
        lemma_row_drawn(canvas, line, row, m);
        let before = line_steps(line, row, m);
        let cell = line.cells[n - 1];
        if cell.width != 0 {
            let step = line_steps(line, row, n).last();
            assert(line_steps(line, row, n) =~= before.push(step));
            lemma_after_push(canvas, before, step);
        }
        let mid = canvas.after_all(before);
        let t = canvas.after_all(line_steps(line, row, n));
        assert forall|c: int| 0 <= c < n implies cell_seen(
            t.buffer,
            c,
            row as int,
            #[trigger] line.cells[c],
        ) by {
            if c < n - 1 {
                assert(cell_seen(mid.buffer, c, row as int, line.cells[c]));
            }
        }
        assert forall|c: int, r: int| r != row implies #[trigger] same_at(
            t.buffer,
            canvas.buffer,
            c,
            r,
        ) by {
            assert(same_at(mid.buffer, canvas.buffer, c, r));
        }
    }
}

/// Rows are drawn into the buffer as the screen has them, and nothing else is touched.
proof fn lemma_rows_drawn(canvas: Canvas, grid: Seq<Line>, cols: int, from: int, to: int)
    requires
        0 <= from,
        to <= grid.len(),
        to <= 65535,
        0 <= cols <= 65535,
        forall|r: int| 0 <= r < grid.len() ==> cols <= (#[trigger] grid[r]).cells.len(),
    ensures
        ({
            let t = canvas.after_all(rows_steps(grid, cols, from, to));
            &&& t.surface == canvas.surface
            &&& forall|r: int, c: int|
                from <= r < to && 0 <= c < cols ==> cell_seen(
                    t.buffer,
                    c,
                    r,
                    #[trigger] grid[r].cells[c],
                )
            &&& forall|c: int, r: int|
                !(from <= r < to) ==> #[trigger] same_at(t.buffer, canvas.buffer, c, r)
        }),
    decreases to - from,
{
    if from < to {
        lemma_rows_drawn(canvas, grid, cols, from, to - 1);
        let before = rows_steps(grid, cols, from, to - 1);
        let last = line_steps(grid[to - 1], (to - 1) as u16, cols as nat);
        let mid = canvas.after_all(before);
        lemma_after_concat(canvas, before, last);
        lemma_row_drawn(mid, grid[to - 1], (to - 1) as u16, cols as nat);
        let t = canvas.after_all(rows_steps(grid, cols, from, to));
        assert forall|r: int, c: int| from <= r < to && 0 <= c < cols implies cell_seen(
            t.buffer,
            c,
            r,
            #[trigger] grid[r].cells[c],
        ) by {
            if r < to - 1 {
                assert(cell_seen(mid.buffer, c, r, grid[r].cells[c]));
                assert(same_at(t.buffer, mid.buffer, c, r));
            }
        }
        assert forall|c: int, r: int| !(from <= r < to) implies #[trigger] same_at(
            t.buffer,
            canvas.buffer,
            c,
            r,
        ) by {
            assert(same_at(t.buffer, mid.buffer, c, r));
            assert(same_at(mid.buffer, canvas.buffer, c, r));
        }
    }
}

/// A full repaint brings every content row onto the surface as the screen has it: at
/// every cell its character and both its colours.
pub proof fn law_full_repaint_is_seen(
    canvas: Canvas,
    shown: Shown,
    grid: Seq<Line>,
    r: int,
    c: int,
)
    requires
        shown.wf(),
        shown.fits(grid),
        1 <= r < shown.rows,
        0 <= c < shown.cols,
    ensures
        ({
            let t = canvas.after_all(shown.full_steps(grid));
            &&& cell_seen(t.surface, c, r, grid[r].cells[c])
            &&& cell_seen(t.buffer, c, r, grid[r].cells[c])
        }),
{
    let rows = rows_steps(grid, shown.cols, 1, shown.rows);
    lemma_rows_drawn(canvas, grid, shown.cols, 1, shown.rows);
    lemma_after_push(canvas, rows, DrawStep::StatusBar);
    lemma_after_push(canvas, rows.push(DrawStep::StatusBar), DrawStep::FlushAll);
    assert(cell_seen(canvas.after_all(rows).buffer, c, r, grid[r].cells[c]));
}

/// The content rows that damage names, within the screen.
pub open spec fn named(damage: Damage, r: int) -> bool {
    damage.dirty_min matches Some(min) && damage.dirty_max matches Some(max) && min <= r <= max
}

/// What the presenter keeps after a repaint: the rows that damage names as the screen
/// has them, the others as they were before, moved up by the rows scrolled.
pub proof fn law_kept_after_repaint(
    shown: Shown,
    grid: Seq<Line>,
    damage: Damage,
    r: int,
    c: int,
)
    requires
        shown.wf(),
        shown.fits(grid),
        damage.wf(),
        1 <= r < shown.rows,
        0 <= c < shown.cols,
    ensures
        ({
            let kept = shown.repainted(grid, damage).visible[r][c];
            let cell = grid[r].cells[c];
            if damage.full || named(damage, r) {
                &&& kept.value == cell.value
                &&& kept.fg_color == cell.fg_color
                &&& kept.bg_color == cell.bg_color
                &&& kept.width == cell.width
            } else {
                r + damage.scrolled < shown.rows ==> kept == shown.visible[r + damage.scrolled][c]
            }
        }),
{
}

/// A repaint of damage keeps the canvas in agreement: if the canvas agreed before, and the
/// damage names every row that scrolling uncovers, it agrees afterwards, with the cursor
/// hidden.
pub proof fn law_damage_repaint_is_seen(
    canvas: Canvas,
    shown: Shown,
    grid: Seq<Line>,
    damage: Damage,
    col: u16,
    row: u16,
)
    requires
        shown.wf(),
        shown.fits(grid),
        damage.wf(),
        agrees(canvas, shown),
        forall|r: int|
            1 <= r < shown.rows && r + damage.scrolled >= shown.rows && !damage.full
                ==> damage.scrolled == 0 || #[trigger] named(damage, r),
    ensures
        agrees(
            canvas.after_all(shown.damage_steps(grid, damage)),
            shown.repainted(grid, damage).with_cursor(col, row),
        ),
{
    let t = canvas.after_all(shown.damage_steps(grid, damage));
    let next = shown.repainted(grid, damage).with_cursor(col, row);
    assert forall|r: int, c: int|
        #![trigger next.visible[r][c]]
        1 <= r < next.rows && 0 <= c < next.cols implies kept_seen(
        t.buffer,
        c,
        r,
        next.visible[r][c],
    ) && kept_seen(t.surface, c, r, next.visible[r][c]) by {
        law_kept_after_repaint(shown, grid, damage, r, c);
        if damage.full {
            law_full_repaint_is_seen(canvas, shown, grid, r, c);
        } else {
            lemma_damage_at(canvas, shown, grid, damage, r, c);
        }
    }
}

proof fn lemma_restored(canvas: Canvas, shown: Shown)
    requires
        shown.wf(),
        agrees(canvas, shown),
    ensures
        ({
            let t = canvas.after_all(shown.restore_steps());
            &&& t.buffer == canvas.buffer
            &&& forall|r: int, c: int|
                1 <= r < shown.rows && 0 <= c < shown.cols ==> kept_seen(
                    t.surface,
                    c,
                    r,
                    #[trigger] shown.visible[r][c],
                )
        }),
{
    let t = canvas.after_all(shown.restore_steps());
    if shown.overlay_shown() {
        let step = shown.restore_steps()[0];
        assert(shown.restore_steps() =~= Seq::<DrawStep>::empty().push(step));
        lemma_after_push(canvas, Seq::empty(), step);
        assert(canvas.after_all(Seq::empty()) == canvas);
    }
    assert forall|r: int, c: int| 1 <= r < shown.rows && 0 <= c < shown.cols implies kept_seen(
        t.surface,
        c,
        r,
        #[trigger] shown.visible[r][c],
    ) by {
        if shown.visible[r][c].width != 0 {
            assert(shown.cursor.0 == c && shown.cursor.1 == r ==> shown.overlay_shown());
        }
    }
}

proof fn lemma_damage_at(
    canvas: Canvas,
    shown: Shown,
    grid: Seq<Line>,
    damage: Damage,
    r: int,
    c: int,
)
    requires
        shown.wf(),
        shown.fits(grid),
        damage.wf(),
        !damage.full,
        agrees(canvas, shown),
        1 <= r < shown.rows,
        0 <= c < shown.cols,
        r + damage.scrolled >= shown.rows ==> damage.scrolled == 0 || named(damage, r),
    ensures
        ({
            let t = canvas.after_all(shown.damage_steps(grid, damage));
            let kept = shown.repainted(grid, damage).visible[r][c];
            kept_seen(t.buffer, c, r, kept) && kept_seen(t.surface, c, r, kept)
        }),
{
    let (from, to) = shown.dirty_rows(damage);
    let erase = shown.restore_steps();
    let shift = if damage.scrolled < shown.rows {
        damage.scrolled as int
    } else {
        shown.rows
    };
    let scroll = if damage.scrolled > 0 && shift > 0 {
        seq![DrawStep::Scroll(shift as u16)]
    } else {
        Seq::empty()
    };
    let draw = rows_steps(grid, shown.cols, from, to);
    let flush = if damage.scrolled > 0 {
        seq![DrawStep::StatusBar, DrawStep::FlushAll]
    } else if from < to {
        seq![DrawStep::FlushRows { from: from as u16, count: (to - from) as u16 }]
    } else {
        Seq::empty()
    };
    let s1 = canvas.after_all(erase);
    let s2 = s1.after_all(scroll);
    let s3 = s2.after_all(draw);
    let t = s3.after_all(flush);
    lemma_after_concat(canvas, erase, scroll);
    lemma_after_concat(canvas, erase + scroll, draw);
    lemma_after_concat(canvas, erase + scroll + draw, flush);
    assert(canvas.after_all(shown.damage_steps(grid, damage)) == t);
    lemma_restored(canvas, shown);
    lemma_rows_drawn(s2, grid, shown.cols, from, to);
    let kept = shown.repainted(grid, damage).visible[r][c];
    law_kept_after_repaint(shown, grid, damage, r, c);
    assert(kept_seen(s1.surface, c, r, shown.visible[r][c]));
    assert(kept_seen(s1.buffer, c, r, shown.visible[r][c]));
    if damage.scrolled > 0 {
        let step = DrawStep::Scroll(shift as u16);
        assert(scroll =~= Seq::<DrawStep>::empty().push(step));
        lemma_after_push(s1, Seq::empty(), step);
        assert(s1.after_all(Seq::empty()) == s1);
        assert(flush =~= Seq::<DrawStep>::empty().push(DrawStep::StatusBar).push(DrawStep::FlushAll));
        lemma_after_push(s3, Seq::empty(), DrawStep::StatusBar);
        lemma_after_push(s3, Seq::empty().push(DrawStep::StatusBar), DrawStep::FlushAll);
        assert(s3.after_all(Seq::empty()) == s3);
        if !(from <= r < to) {
            assert(r + shift < shown.rows);
            assert(kept_seen(s1.buffer, c, r + shift, shown.visible[r + shift][c]));
            assert(same_at(s3.buffer, s2.buffer, c, r));
        } else {
            assert(cell_seen(s3.buffer, c, r, grid[r].cells[c]));
        }
    } else {
        assert(s2 == s1);
        if from <= r < to {
            assert(cell_seen(s3.buffer, c, r, grid[r].cells[c]));
        } else {
            assert(same_at(s3.buffer, s2.buffer, c, r));
        }
        if from < to {
            let step = DrawStep::FlushRows { from: from as u16, count: (to - from) as u16 };
            assert(flush =~= Seq::<DrawStep>::empty().push(step));
            lemma_after_push(s3, Seq::empty(), step);
            assert(s3.after_all(Seq::empty()) == s3);
        }
    }
}

/// The cursor is drawn as a full block in the colours of its cell, on the surface alone,
/// and taking it away brings the cell back.
pub proof fn law_cursor_is_seen(canvas: Canvas, shown: Shown)
    requires
        shown.wf(),
        shown.overlay_shown(),
        agrees(canvas, shown),
    ensures
        ({
            let (col, row) = shown.cursor;
            let cell = shown.visible[row as int][col as int];
            let on = canvas.after(shown.overlay_step(crate::terminal::display::CURSOR));
            let off = canvas.after(shown.overlay_step(cell.glyph()));
            &&& seen(
                on.surface,
                col as int,
                row as int,
                '\u{2588}',
                cell.fg_color,
                cell.bg_color,
            )
            &&& on.buffer == canvas.buffer
            &&& agrees(on, Shown { cursor_visible: true, ..shown })
            &&& agrees(off, Shown { cursor_visible: false, ..shown })
        }),
{
    let (col, row) = shown.cursor;
    let cell = shown.visible[row as int][col as int];
    let on = canvas.after(shown.overlay_step(crate::terminal::display::CURSOR));
    let off = canvas.after(shown.overlay_step(cell.glyph()));
    let a = Shown { cursor_visible: true, ..shown };
    let b = Shown { cursor_visible: false, ..shown };
    assert forall|r: int, c: int|
        #![trigger a.visible[r][c]]
        1 <= r < a.rows && 0 <= c < a.cols implies kept_seen(on.buffer, c, r, a.visible[r][c]) && (
    !(a.cursor.0 == c && a.cursor.1 == r) ==> kept_seen(on.surface, c, r, a.visible[r][c])) by {
        assert(kept_seen(canvas.buffer, c, r, shown.visible[r][c]));
    }
    assert forall|r: int, c: int|
        #![trigger b.visible[r][c]]
        1 <= r < b.rows && 0 <= c < b.cols implies kept_seen(off.buffer, c, r, b.visible[r][c])
        && kept_seen(off.surface, c, r, b.visible[r][c]) by {
        assert(kept_seen(canvas.buffer, c, r, shown.visible[r][c]));
    }
}

/// The presenter's state stands for what its fields hold, cell by cell.
pub proof fn law_state_is_shown(state: DisplayState, r: int, c: int)
    requires
        0 <= r < state.visible@.len(),
        0 <= c < state.visible@[r]@.len(),
    ensures
        ({
            let shown = state@;
            &&& shown.cols == state.size.0 && shown.rows == state.size.1
            &&& shown.visible.len() == state.visible@.len()
            &&& shown.visible[r].len() == state.visible@[r]@.len()
            &&& shown.visible[r][c] == state.visible@[r]@[c]
            &&& shown.cursor == state.cursor_pos
            &&& shown.cursor_visible == state.cursor_visible
        }),
{
}

/// A blank screen has empty cells of one column, white on black, in every place, and a
/// hidden cursor at the start of the first content row.
pub proof fn law_blank_screen(cols: int, rows: int, r: int, c: int)
    requires
        0 <= r < rows,
        0 <= c < cols,
    ensures
        ({
            let shown = Shown::blank(cols, rows);
            let cell = shown.visible[r][c];
            &&& shown.cols == cols && shown.rows == rows
            &&& shown.visible.len() == rows && shown.visible[r].len() == cols
            &&& cell.value == '\0' && cell.width == 1
            &&& cell.fg_color.base == BaseColor::White
            &&& cell.bg_color.base == BaseColor::Black
            &&& shown.cursor.0 == 0 && shown.cursor.1 == 1
            &&& !shown.cursor_visible
        }),
{
}

/// A cursor within the screen is drawn, unless it stands on a cell that continues a wide
/// glyph.
pub proof fn law_cursor_within_screen(shown: Shown)
    ensures
        ({
            let (col, row) = shown.cursor;
            shown.overlay_shown() <==> col < shown.cols && row < shown.rows
                && shown.visible[row as int][col as int].width != 0
        }),
{
}

} // verus!
