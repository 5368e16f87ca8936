//! Presentation: what has to be drawn so that the framebuffer shows a session's
//! screen.
//!
//! The presenter keeps a snapshot of the cells that are on screen, so that it can
//! restore the one under the cursor, and turns a screen and its damage into
//! drawing steps. It is the only view onto the active session.

use vstd::prelude::*;

use crate::terminal::color::{BaseColor, Color};
use crate::terminal::glyph::{DEFAULT_CHAR_HEIGHT, DEFAULT_CHAR_WIDTH};
use crate::terminal::model::{Cell, Damage, Line, ScreenSize, TerminalModel};

verus! {

/// The glyph of the cursor: a full block.
pub const CURSOR: char = '\u{2588}';

/// A cell as it is on screen.
#[derive(Copy, Clone, Debug, PartialEq, Eq, Structural)]
pub struct Character {
    pub value: char,
    pub fg_color: Color,
    pub bg_color: Color,
    pub width: u8,
}

/// A blank cell.
pub open spec fn blank_character() -> Character {
    Character {
        value: '\0',
        fg_color: Color::of(BaseColor::White),
        bg_color: Color::of(BaseColor::Black),
        width: 1,
    }
}

impl Character {
    /// A blank cell.
    pub fn blank() -> (r: Character)
        ensures
            r == blank_character(),
    {
        Character {
            value: '\0',
            fg_color: Color::plain(BaseColor::White),
            bg_color: Color::plain(BaseColor::Black),
            width: 1,
        }
    }

    /// The cell of a screen as it is shown.
    pub open spec fn of(cell: Cell) -> Character {
        Character {
            value: cell.value,
            fg_color: cell.fg_color,
            bg_color: cell.bg_color,
            width: cell.width,
        }
    }

    /// The glyph that is drawn: a blank stands for an empty cell.
    pub open spec fn glyph(self) -> char {
        if self.value == '\0' {
            ' '
        } else {
            self.value
        }
    }
}

/// One drawing step. Columns and rows count character cells.
#[derive(Copy, Clone, Debug, PartialEq, Eq, Structural)]
pub enum DrawStep {
    /// Draw a character into the buffer.
    Glyph { col: u16, row: u16, fg: Color, bg: Color, glyph: char },
    /// Draw a character onto the visible surface only.
    Direct { col: u16, row: u16, fg: Color, bg: Color, glyph: char },
    /// Move the buffered picture up by so many rows.
    Scroll(u16),
    /// Draw the status bar.
    StatusBar,
    /// Bring so many rows of the buffer onto the visible surface.
    FlushRows { from: u16, count: u16 },
    /// Bring the whole buffer onto the visible surface.
    FlushAll,
}

/// What is on screen, as a mathematical value.
#[verifier::ext_equal]
pub struct Shown {
    pub cols: int,
    pub rows: int,
    pub visible: Seq<Seq<Character>>,
    pub cursor: (u16, u16),
    pub cursor_visible: bool,
}

/// The cells of a line as they are shown.
pub open spec fn shown_line(line: Line, cols: int) -> Seq<Character> {
    Seq::new(cols as nat, |c: int| Character::of(line.cells[c]))
}

/// The steps that draw the first `n` columns of a line. The cells that continue a
/// wide glyph are not drawn: their lead cell has covered them.
pub open spec fn line_steps(line: Line, row: u16, n: nat) -> Seq<DrawStep>
    decreases n,
{
    if n == 0 {
        Seq::empty()
    } else {
        let before = line_steps(line, row, (n - 1) as nat);
        let shown = Character::of(line.cells[n - 1]);
        if shown.width == 0 {
            before
        } else {
            before.push(
                DrawStep::Glyph {
                    col: (n - 1) as u16,
                    row,
                    fg: shown.fg_color,
                    bg: shown.bg_color,
                    glyph: shown.glyph(),
                },
            )
        }
    }
}

/// The steps that draw the rows `from..to` of a grid.
pub open spec fn rows_steps(grid: Seq<Line>, cols: int, from: int, to: int) -> Seq<DrawStep>
    decreases to - from,
{
    if from >= to {
        Seq::empty()
    } else {
        rows_steps(grid, cols, from, to - 1) + line_steps(
            grid[to - 1],
            (to - 1) as u16,
            cols as nat,
        )
    }
}

impl Shown {
    /// There is a cell for every position.
    pub open spec fn wf(self) -> bool {
        &&& 0 <= self.cols <= 65535
        &&& 0 <= self.rows <= 65535
        &&& self.visible.len() == self.rows
        &&& forall|r: int|
            0 <= r < self.rows ==> (#[trigger] self.visible[r]).len() == self.cols
    }

    /// The grid is large enough to fill the screen.
    pub open spec fn fits(self, grid: Seq<Line>) -> bool {
        &&& self.rows <= grid.len()
        &&& forall|r: int| 0 <= r < grid.len() ==> self.cols <= (#[trigger] grid[r]).cells.len()
    }

    /// A blank screen.
    pub open spec fn blank(cols: int, rows: int) -> Shown {
        Shown {
            cols,
            rows,
            visible: Seq::new(
                rows as nat,
                |r: int| Seq::new(cols as nat, |c: int| blank_character()),
            ),
            cursor: (0, 1),
            cursor_visible: false,
        }
    }

    /// The rows `from..to` as the grid has them.
    pub open spec fn with_rows(self, grid: Seq<Line>, from: int, to: int) -> Shown {
        Shown {
            visible: Seq::new(
                self.visible.len(),
                |r: int|
                    if from <= r < to {
                        shown_line(grid[r], self.cols)
                    } else {
                        self.visible[r]
                    },
            ),
            ..self
        }
    }

    /// The picture moved up, blank rows below it.
    pub open spec fn scrolled(self, rows: int) -> Shown {
        Shown {
            visible: Seq::new(
                self.visible.len(),
                |r: int|
                    if r + rows < self.visible.len() {
                        self.visible[r + rows]
                    } else {
                        Seq::new(self.cols as nat, |c: int| blank_character())
                    },
            ),
            ..self
        }
    }

    /// The cursor overlay at a position and hidden.
    pub open spec fn with_cursor(self, col: u16, row: u16) -> Shown {
        Shown { cursor: (col, row), cursor_visible: false, ..self }
    }

    /// The overlay is on the screen, and not on a cell that continues a wide
    /// glyph.
    pub open spec fn overlay_shown(self) -> bool {
        let (col, row) = self.cursor;
        row < self.rows && col < self.cols && self.visible[row as int][col as int].width != 0
    }

    /// The step that draws `glyph` at the cursor in the colours of the cell there.
    pub open spec fn overlay_step(self, glyph: char) -> DrawStep {
        let (col, row) = self.cursor;
        let cell = self.visible[row as int][col as int];
        DrawStep::Direct { col, row, fg: cell.fg_color, bg: cell.bg_color, glyph }
    }

    /// The steps that take the overlay away.
    pub open spec fn restore_steps(self) -> Seq<DrawStep> {
        if self.overlay_shown() {
            let (col, row) = self.cursor;
            seq![self.overlay_step(self.visible[row as int][col as int].glyph())]
        } else {
            Seq::empty()
        }
    }

    /// The steps of a full repaint: every content row, the status bar, and the
    /// whole buffer brought out.
    pub open spec fn full_steps(self, grid: Seq<Line>) -> Seq<DrawStep> {
        rows_steps(grid, self.cols, 1, self.rows).push(DrawStep::StatusBar).push(DrawStep::FlushAll)
    }

    /// The content rows that damage asks to repaint: from the first to the one
    /// before the second.
    pub open spec fn dirty_rows(self, damage: Damage) -> (int, int) {
        match (damage.dirty_min, damage.dirty_max) {
            (Some(min), Some(max)) => {
                let start = if min > 1 {
                    min as int
                } else {
                    1
                };
                let last = if max < self.rows - 1 {
                    max as int
                } else if self.rows > 0 {
                    self.rows - 1
                } else {
                    0
                };
                if start <= last {
                    (start, last + 1)
                } else {
                    (0, 0)
                }
            },
            _ => (0, 0),
        }
    }

    /// The screen after damage was repainted.
    pub open spec fn repainted(self, grid: Seq<Line>, damage: Damage) -> Shown {
        if damage.full {
            self.with_rows(grid, 1, self.rows)
        } else {
            let (from, to) = self.dirty_rows(damage);
            let moved = if damage.scrolled > 0 {
                self.scrolled(damage.scrolled as int)
            } else {
                self
            };
            moved.with_rows(grid, from, to)
        }
    }

    /// The steps that repaint damage. A picture that scrolled is moved, and then
    /// the status bar, which it was dragged through, is drawn anew and everything
    /// brought out.
    pub open spec fn damage_steps(self, grid: Seq<Line>, damage: Damage) -> Seq<DrawStep> {
        if damage.full {
            self.full_steps(grid)
        } else {
            let (from, to) = self.dirty_rows(damage);
            let erase = self.restore_steps();
            let shift = if damage.scrolled < self.rows {
                damage.scrolled as int
            } else {
                self.rows
            };
            let scroll = if damage.scrolled > 0 && shift > 0 {
                seq![DrawStep::Scroll(shift as u16)]
            } else {
                Seq::empty()
            };
            let draw = rows_steps(grid, self.cols, from, to);
            let flush = if damage.scrolled > 0 {
                seq![DrawStep::StatusBar, DrawStep::FlushAll]
            } else if from < to {
                seq![DrawStep::FlushRows { from: from as u16, count: (to - from) as u16 }]
            } else {
                Seq::empty()
            };
            erase + scroll + draw + flush
        }
    }
}

/// Presentation state.
pub struct DisplayState {
    pub size: (u16, u16),
    pub visible: Vec<Vec<Character>>,
    pub cursor_pos: (u16, u16),
    pub cursor_visible: bool,
    pub tab_ids: Vec<u8>,
    pub active_tab: u8,
}

/// Rows of characters as mathematical values.
pub open spec fn char_rows(rows: Seq<Vec<Character>>) -> Seq<Seq<Character>> {
    Seq::new(rows.len(), |r: int| rows[r]@)
}

impl View for DisplayState {
    type V = Shown;

    open spec fn view(&self) -> Shown {
        Shown {
            cols: self.size.0 as int,
            rows: self.size.1 as int,
            visible: char_rows(self.visible@),
            cursor: self.cursor_pos,
            cursor_visible: self.cursor_visible,
        }
    }
}

impl DisplayState {
    /// See `Shown::wf`.
    pub open spec fn wf(&self) -> bool {
        self@.wf()
    }

    /// The tabs of the status bar are the same.
    pub open spec fn same_tabs(&self, other: &DisplayState) -> bool {
        self.tab_ids@ == other.tab_ids@ && self.active_tab == other.active_tab
    }

    /// A blank screen for a framebuffer of this many pixels, as many whole
    /// characters as fit it. The counts are kept in 16 bits.
    pub fn new(width: u32, height: u32) -> (r: DisplayState)
        ensures
            r.wf(),
            r@ == Shown::blank((width / 8) as int % 65536, (height / 16) as int % 65536),
            r.tab_ids@ == Seq::<u8>::empty(),
            r.active_tab == 255,
    {
        let cols: u16 = ((width / DEFAULT_CHAR_WIDTH) % 65536) as u16;
        let rows: u16 = ((height / DEFAULT_CHAR_HEIGHT) % 65536) as u16;
        let mut visible: Vec<Vec<Character>> = Vec::new();
        for r in 0..rows
            invariant
                visible@.len() == r,
                forall|k: int|
                    0 <= k < r ==> (#[trigger] visible@[k])@ == Seq::new(
                        cols as nat,
                        |c: int| blank_character(),
                    ),
        {
            visible.push(blank_row(cols));
        }
        let r = DisplayState {
            size: (cols, rows),
            visible,
            cursor_pos: (0, 1),
            cursor_visible: false,
            tab_ids: Vec::new(),
            active_tab: 255,
        };
        proof {
            assert(r@.visible =~= Shown::blank(cols as int, rows as int).visible);
        }
        r
    }

    /// The size that a session's screen must have to be shown here.
    pub fn screen_size(&self) -> (r: ScreenSize)
        ensures
            r.cols == self@.cols,
            r.rows == self@.rows,
    {
        ScreenSize { cols: self.size.0, rows: self.size.1 }
    }

    /// Take over the tabs of the status bar.
    pub fn update_tabs(&mut self, ids: &Vec<u8>, active: u8)
        ensures
            final(self)@ == old(self)@,
            final(self).tab_ids@ == ids@,
            final(self).active_tab == active,
    {
        let mut tabs: Vec<u8> = Vec::new();
        let mut i: usize = 0;
        while i < ids.len()
            invariant
                i <= ids@.len(),
                tabs@ == ids@.take(i as int),
            decreases ids@.len() - i,
        {
            tabs.push(ids[i]);
            i = i + 1;
            proof {
                assert(tabs@ =~= ids@.take(i as int));
            }
        }
        proof {
            assert(ids@.take(i as int) =~= ids@);
        }
        self.tab_ids = tabs;
        self.active_tab = active;
    }

    /// Draw one row of a screen and take it into the snapshot.
    fn present_row(&mut self, model: &TerminalModel, r: u16, steps: &mut Vec<DrawStep>)
        requires
            old(self).wf(),
            old(self)@.fits(model@.grid),
            r < old(self)@.rows,
        ensures
            final(self).wf(),
            final(self).same_tabs(old(self)),
            final(self)@ == old(self)@.with_rows(model@.grid, r as int, r + 1),
            final(steps)@ == old(steps)@ + line_steps(
                model@.grid[r as int],
                r,
                old(self)@.cols as nat,
            ),
    {
        let cols: u16 = self.size.0;
        let ghost line = model@.grid[r as int];
        assert(line == model.grid@[r as int]@);
        let mut row: Vec<Character> = Vec::new();
        let ghost start = steps@;
        proof {
            assert(start + line_steps(line, r, 0) =~= start);
        }
        for c in 0..cols
            invariant
                row@.len() == c,
                cols <= line.cells.len(),
                r < model.grid@.len(),
                line == model.grid@[r as int]@,
                forall|k: int| 0 <= k < c ==> row@[k] == Character::of(line.cells[k]),
                steps@ == start + line_steps(line, r, c as nat),
        {
            let cell = model.grid[r as usize].cells[c as usize];
            row.push(
                Character {
                    value: cell.value,
                    fg_color: cell.fg_color,
                    bg_color: cell.bg_color,
                    width: cell.width,
                },
            );
            if cell.width != 0 {
                let glyph = if cell.value == '\0' { ' ' } else { cell.value };
                steps.push(
                    DrawStep::Glyph {
                        col: c,
                        row: r,
                        fg: cell.fg_color,
                        bg: cell.bg_color,
                        glyph,
                    },
                );
            }
            proof {
                assert(steps@ =~= start + line_steps(line, r, (c + 1) as nat));
            }
        }
        let ghost before = self@;
        proof {
            assert(row@ =~= shown_line(line, cols as int));
        }
        self.visible[r as usize] = row;
        proof {
            assert(self@.visible =~= before.with_rows(model@.grid, r as int, r + 1).visible);
        }
    }

    /// Draw the rows `from..to` of a screen and take them into the snapshot.
    fn present_rows(&mut self, model: &TerminalModel, from: u16, to: u16, steps: &mut Vec<DrawStep>)
        requires
            old(self).wf(),
            old(self)@.fits(model@.grid),
            to <= old(self)@.rows,
        ensures
            final(self).wf(),
            final(self).same_tabs(old(self)),
            final(self)@ == old(self)@.with_rows(model@.grid, from as int, to as int),
            final(steps)@ == old(steps)@ + rows_steps(
                model@.grid,
                old(self)@.cols,
                from as int,
                to as int,
            ),
    {
        let ghost before = self@;
        let ghost start = steps@;
        let ghost grid = model@.grid;
        let mut r: u16 = from;
        proof {
            assert(before.with_rows(grid, from as int, r as int).visible =~= before.visible);
            assert(start + rows_steps(grid, before.cols, from as int, r as int) =~= start);
        }
        while r < to
            invariant
                from <= r,
                r <= to || r == from,
                to <= before.rows,
                self.wf(),
                self.same_tabs(old(self)),
                grid == model@.grid,
                before.fits(grid),
                self@ == before.with_rows(grid, from as int, r as int),
                steps@ == start + rows_steps(grid, before.cols, from as int, r as int),
            decreases to - r,
        {
            self.present_row(model, r, steps);
            r = r + 1;
            proof {
                assert(self@.visible =~= before.with_rows(grid, from as int, r as int).visible);
                assert(steps@ =~= start + rows_steps(grid, before.cols, from as int, r as int));
            }
        }
        proof {
            if from >= to {
                assert(before.with_rows(grid, from as int, to as int).visible =~= before.visible);
            }
        }
    }

    /// Repaint the whole viewport and the status bar. The cost is bounded by the
    /// size of the screen, never by the length of its history.
    pub fn present_full(&mut self, model: &TerminalModel) -> (r: Vec<DrawStep>)
        requires
            old(self).wf(),
            old(self)@.fits(model@.grid),
        ensures
            final(self).wf(),
            final(self).same_tabs(old(self)),
            final(self)@ == old(self)@.with_rows(model@.grid, 1, old(self)@.rows).with_cursor(
                model.cursor.col,
                model.cursor.row,
            ),
            r@ == old(self)@.full_steps(model@.grid),
    {
        let mut steps: Vec<DrawStep> = Vec::new();
        self.present_rows(model, 1, self.size.1, &mut steps);
        steps.push(DrawStep::StatusBar);
        steps.push(DrawStep::FlushAll);
        self.cursor_pos = (model.cursor.col, model.cursor.row);
        self.cursor_visible = false;
        proof {
            assert(steps@ =~= old(self)@.full_steps(model@.grid));
        }
        steps
    }

    /// Repaint what a feed changed. Full damage is a full repaint; a feed that
    /// scrolled moves the picture instead of drawing every glyph again.
    pub fn present_damage(&mut self, model: &TerminalModel, damage: Damage) -> (r: Vec<DrawStep>)
        requires
            old(self).wf(),
            old(self)@.fits(model@.grid),
            damage.wf(),
        ensures
            final(self).wf(),
            final(self).same_tabs(old(self)),
            final(self)@ == old(self)@.repainted(model@.grid, damage).with_cursor(
                model.cursor.col,
                model.cursor.row,
            ),
            r@ == old(self)@.damage_steps(model@.grid, damage),
    {
        if damage.full {
            return self.present_full(model);
        }
        let ghost before = self@;
        let mut steps: Vec<DrawStep> = Vec::new();
        // The overlay goes before anything else is drawn.
        self.restore_cursor_cell(&mut steps);
        let ghost erase = steps@;
        let scrolled = damage.scrolled > 0;
        if scrolled {
            self.scroll_presented(damage.scrolled, &mut steps);
        }
        let ghost moved = self@;
        let mut from: u16 = 0;
        let mut to: u16 = 0;
        if let Some((min, max)) = damage.dirty_range() {
            let start: u16 = if min > 1 { min } else { 1 };
            let bottom: u16 = if self.size.1 > 0 { self.size.1 - 1 } else { 0 };
            let last: u16 = if max < bottom { max } else { bottom };
            if start <= last {
                from = start;
                to = last + 1;
            }
        }
        proof {
            assert(before.dirty_rows(damage) == (from as int, to as int));
        }
        let ghost ahead = steps@;
        self.present_rows(model, from, to, &mut steps);
        if scrolled {
            steps.push(DrawStep::StatusBar);
            steps.push(DrawStep::FlushAll);
        } else if from < to {
            steps.push(DrawStep::FlushRows { from, count: to - from });
        }
        self.cursor_pos = (model.cursor.col, model.cursor.row);
        self.cursor_visible = false;
        proof {
            assert(self@ =~= before.repainted(model@.grid, damage).with_cursor(
                model.cursor.col,
                model.cursor.row,
            ));
            assert(steps@ =~= before.damage_steps(model@.grid, damage));
        }
        steps
    }

    /// Move the presented picture up by so many rows. Only the rows that come
    /// into view are left to be drawn.
    fn scroll_presented(&mut self, rows: u16, steps: &mut Vec<DrawStep>)
        requires
            old(self).wf(),
            rows > 0,
        ensures
            final(self).wf(),
            final(self).same_tabs(old(self)),
            final(self)@ == old(self)@.scrolled(rows as int),
            final(steps)@ == old(steps)@ + ({
                let shift = if rows < old(self)@.rows {
                    rows as int
                } else {
                    old(self)@.rows
                };
                if shift > 0 {
                    seq![DrawStep::Scroll(shift as u16)]
                } else {
                    Seq::empty()
                }
            }),
    {
        let shift: u16 = if rows < self.size.1 { rows } else { self.size.1 };
        if shift == 0 {
            proof {
                assert(self@.visible =~= self@.scrolled(rows as int).visible);
                assert(steps@ + Seq::<DrawStep>::empty() =~= steps@);
            }
            return;
        }
        steps.push(DrawStep::Scroll(shift));
        let ghost before = self@;
        let cols: u16 = self.size.0;
        let ghost blank = Seq::new(cols as nat, |c: int| blank_character());
        let mut i: u16 = 0;
        while i < shift
            invariant
                i <= shift,
                shift <= before.rows,
                before.wf(),
                cols == before.cols,
                blank == Seq::new(cols as nat, |c: int| blank_character()),
                self.same_tabs(old(self)),
                self@ == (Shown { visible: self@.visible, ..before }),
                self.visible@.len() == before.rows,
                forall|r: int|
                    0 <= r < before.rows - i ==> (#[trigger] self@.visible[r])
                        == before.visible[r + i],
                forall|r: int|
                    before.rows - i <= r < before.rows ==> (#[trigger] self@.visible[r]) == blank,
            decreases shift - i,
        {
            let ghost prior = self@.visible;
            let ghost prior_rows = self.visible@;
            let _ = self.visible.remove(0);
            self.visible.push(blank_row(cols));
            i = i + 1;
            proof {
                assert forall|r: int| 0 <= r < before.rows - 1 implies (
                #[trigger] self@.visible[r]) == prior[r + 1] by {
                    assert(self.visible@[r] == prior_rows[r + 1]);
                    assert(prior[r + 1] == prior_rows[r + 1]@);
                }
                assert forall|r: int| 0 <= r < before.rows - i implies (
                #[trigger] self@.visible[r]) == before.visible[r + i] by {
                    assert(prior[r + 1] == before.visible[r + 1 + (i - 1)]);
                }
            }
        }
        proof {
            assert(self@.visible =~= before.scrolled(rows as int).visible);
        }
    }

    /// Draw the cell under the cursor overlay, which takes the overlay away.
    fn restore_cursor_cell(&mut self, steps: &mut Vec<DrawStep>)
        requires
            old(self).wf(),
        ensures
            final(self).wf(),
            final(self).same_tabs(old(self)),
            final(self)@ == (Shown {
                cursor_visible: if old(self)@.overlay_shown() {
                    false
                } else {
                    old(self)@.cursor_visible
                },
                ..old(self)@
            }),
            final(steps)@ == old(steps)@ + old(self)@.restore_steps(),
    {
        let (col, row) = self.cursor_pos;
        proof {
            assert(steps@ + Seq::<DrawStep>::empty() =~= steps@);
        }
        if row >= self.size.1 || col >= self.size.0 {
            return;
        }
        assert(self@.visible[row as int] == self.visible@[row as int]@);
        let cell = self.visible[row as usize][col as usize];
        if cell.width == 0 {
            return;
        }
        let glyph = if cell.value == '\0' { ' ' } else { cell.value };
        steps.push(DrawStep::Direct { col, row, fg: cell.fg_color, bg: cell.bg_color, glyph });
        self.cursor_visible = false;
    }

    /// Toggle the cursor overlay. It is drawn on the visible surface only, so it
    /// never gets into the buffered picture. Off the screen, or on a cell that
    /// continues a wide glyph, there is nothing to toggle.
    pub fn toggle_cursor(&mut self) -> (r: Option<DrawStep>)
        requires
            old(self).wf(),
        ensures
            final(self).wf(),
            final(self).same_tabs(old(self)),
            !old(self)@.overlay_shown() ==> r is None && final(self)@ == old(self)@,
            old(self)@.overlay_shown() ==> {
                let (col, row) = old(self)@.cursor;
                let cell = old(self)@.visible[row as int][col as int];
                let show = !old(self)@.cursor_visible;
                &&& r == Some(
                    old(self)@.overlay_step(
                        if show {
                            CURSOR
                        } else {
                            cell.glyph()
                        },
                    ),
                )
                &&& final(self)@ == (Shown { cursor_visible: show, ..old(self)@ })
            },
    {
        let (col, row) = self.cursor_pos;
        if row >= self.size.1 || col >= self.size.0 {
            return None;
        }
        assert(self@.visible[row as int] == self.visible@[row as int]@);
        let cell = self.visible[row as usize][col as usize];
        if cell.width == 0 {
            return None;
        }
        let show = !self.cursor_visible;
        let glyph = if show {
            CURSOR
        } else if cell.value == '\0' {
            ' '
        } else {
            cell.value
        };
        self.cursor_visible = show;
        Some(DrawStep::Direct { col, row, fg: cell.fg_color, bg: cell.bg_color, glyph })
    }
}

fn blank_row(cols: u16) -> (r: Vec<Character>)
    ensures
        r@ == Seq::new(cols as nat, |c: int| blank_character()),
{
    let row = vec![Character::blank(); cols as usize];
    proof {
        assert(row@ =~= Seq::new(cols as nat, |c: int| blank_character()));
    }
    row
}

/// After a full repaint every content row is shown as the screen has it.
pub proof fn law_full_repaint_shows_all(shown: Shown, grid: Seq<Line>, r: int)
    requires
        shown.wf(),
        shown.fits(grid),
        1 <= r < shown.rows,
    ensures
        shown.with_rows(grid, 1, shown.rows).visible[r] == shown_line(grid[r], shown.cols),
{
}

/// Repainting the damage of a feed keeps the picture in step: if every content
/// row was shown as the screen had it, and the damage covers every row that
/// changed, every content row is shown as the screen has it now.
pub proof fn law_damage_repaint_keeps_step(
    shown: Shown,
    before: Seq<Line>,
    after: Seq<Line>,
    damage: Damage,
    r: int,
)
    requires
        shown.wf(),
        shown.fits(before),
        shown.fits(after),
        damage.wf(),
        damage.scrolled == 0,
        forall|k: int|
            1 <= k < shown.rows ==> (#[trigger] shown.visible[k]) == shown_line(
                before[k],
                shown.cols,
            ),
        forall|k: int|
            1 <= k < shown.rows && (#[trigger] after[k]).cells != before[k].cells
                ==> damage.covers(k),
        1 <= r < shown.rows,
    ensures
        shown.repainted(after, damage).visible[r] == shown_line(after[r], shown.cols),
{
    if after[r].cells == before[r].cells {
        assert(shown_line(after[r], shown.cols) =~= shown_line(before[r], shown.cols));
        assert(shown.visible[r] == shown_line(before[r], shown.cols));
    } else {
        assert(damage.covers(r));
    }
}

/// Toggling the cursor twice leaves everything as it was.
pub proof fn law_toggle_twice(shown: Shown)
    ensures
        ({
            let once = Shown { cursor_visible: !shown.cursor_visible, ..shown };
            let twice = Shown { cursor_visible: !once.cursor_visible, ..once };
            once.overlay_shown() == shown.overlay_shown() && twice == shown
        }),
{
}

/// A full repaint draws the status bar and then brings everything out, as the last two
/// steps. A repaint of damage does so too if everything is dirty or the picture scrolled.
pub proof fn law_status_bar_is_drawn(shown: Shown, grid: Seq<Line>, damage: Damage)
    requires
        shown.wf(),
        damage.wf(),
    ensures
        ({
            let full = shown.full_steps(grid);
            &&& full.len() >= 2
            &&& full[full.len() - 2] == DrawStep::StatusBar
            &&& full.last() == DrawStep::FlushAll
        }),
        damage.full || damage.scrolled > 0 ==> {
            let steps = shown.damage_steps(grid, damage);
            &&& steps.len() >= 2
            &&& steps[steps.len() - 2] == DrawStep::StatusBar
            &&& steps.last() == DrawStep::FlushAll
        },
{
}

} // verus!
