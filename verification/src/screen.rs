//! The terminal screen buffer: a grid of cells with a cursor and current attributes, and
//! the effect on it of printed characters, control bytes, CSI and ESC sequences.

use vstd::prelude::*;
use crate::text::{join_lines, push_joined_line, skip_ws_backward, string_of_range, trim_end};

verus! {

/// Single cell: character and basic attributes (one of the 8 standard colours each).
#[derive(Clone, Copy, Debug, PartialEq, Eq, Structural)]
pub struct Cell {
    pub ch: char,
    pub fg: u8,
    pub bg: u8,
    pub bold: bool,
}

/// An empty cell: a space in the default colours.
pub open spec fn blank_cell() -> Cell {
    Cell { ch: ' ', fg: 7, bg: 0, bold: false }
}

impl Cell {
    pub fn blank() -> (c: Cell)
        ensures
            c == blank_cell(),
    {
        Cell { ch: ' ', fg: 7, bg: 0, bold: false }
    }
}

impl Default for Cell {
    fn default() -> (c: Self)
        ensures
            c == blank_cell(),
    {
        Cell::blank()
    }
}

// ---------------------------------------------------------------------------
// Model
// ---------------------------------------------------------------------------

/// The abstract state of a screen.
pub struct ScreenModel {
    pub grid: Seq<Seq<Cell>>,
    pub rows: nat,
    pub cols: nat,
    pub cursor_row: nat,
    pub cursor_col: nat,
    pub fg: u8,
    pub bg: u8,
    pub bold: bool,
}

/// `n.saturating_sub(1)`.
pub open spec fn sat_dec(n: nat) -> nat {
    if n == 0 {
        0
    } else {
        (n - 1) as nat
    }
}

/// `a.saturating_sub(b)`.
pub open spec fn sat_sub(a: nat, b: nat) -> nat {
    if a >= b {
        (a - b) as nat
    } else {
        0
    }
}

pub open spec fn min_nat(a: nat, b: nat) -> nat {
    if a <= b {
        a
    } else {
        b
    }
}

pub open spec fn blank_row(cols: nat) -> Seq<Cell> {
    Seq::new(cols, |i: int| blank_cell())
}

/// CSI parameter `i`, defaulting to 1 when absent.
pub open spec fn param(p: Seq<u16>, i: int) -> nat {
    if 0 <= i < p.len() {
        p[i] as nat
    } else {
        1
    }
}

/// `row` cut or padded with blank cells to `cols` cells (`Vec::resize`).
pub open spec fn resized_row(row: Seq<Cell>, cols: nat) -> Seq<Cell> {
    if row.len() >= cols {
        row.take(cols as int)
    } else {
        row + Seq::new((cols - row.len()) as nat, |i: int| blank_cell())
    }
}

/// The characters of a row of cells.
pub open spec fn row_chars(row: Seq<Cell>) -> Seq<char> {
    row.map_values(|c: Cell| c.ch)
}

impl ScreenModel {
    /// The grid has `rows` rows of `cols` cells and the cursor is on the grid (or at the
    /// origin when the grid is empty); the dimensions fit a `Vec`.
    pub open spec fn wf(self) -> bool {
        &&& self.grid.len() == self.rows
        &&& forall|r: int| 0 <= r < self.rows ==> (#[trigger] self.grid[r]).len() == self.cols
        &&& self.rows <= isize::MAX
        &&& self.cols <= isize::MAX
        &&& self.cursor_row <= sat_dec(self.rows)
        &&& self.cursor_col <= sat_dec(self.cols)
    }

    /// Current attributes and all cells use the 8 standard colours.
    pub open spec fn colors_standard(self) -> bool {
        &&& self.fg < 8
        &&& self.bg < 8
        &&& forall|r: int, c: int|
            0 <= r < self.grid.len() && 0 <= c < self.grid[r].len() ==> (#[trigger] self.grid[r][c]).fg
                < 8 && self.grid[r][c].bg < 8
    }

    /// A screen of blank cells with the cursor at the origin and default attributes.
    pub open spec fn fresh(rows: nat, cols: nat) -> ScreenModel {
        ScreenModel {
            grid: Seq::new(rows, |r: int| blank_row(cols)),
            rows,
            cols,
            cursor_row: 0,
            cursor_col: 0,
            fg: 7,
            bg: 0,
            bold: false,
        }
    }

    /// The cursor moved back onto the grid.
    pub open spec fn clamped(self) -> ScreenModel {
        ScreenModel {
            cursor_row: if self.cursor_row >= self.rows {
                sat_dec(self.rows)
            } else {
                self.cursor_row
            },
            cursor_col: if self.cursor_col >= self.cols {
                sat_dec(self.cols)
            } else {
                self.cursor_col
            },
            ..self
        }
    }

    /// Rows and columns changed to `rows` × `cols`, keeping what fits, cursor untouched.
    pub open spec fn reshaped(self, rows: nat, cols: nat) -> ScreenModel {
        ScreenModel {
            grid: Seq::new(
                rows,
                |r: int|
                    resized_row(
                        if r < self.grid.len() {
                            self.grid[r]
                        } else {
                            Seq::empty()
                        },
                        cols,
                    ),
            ),
            rows,
            cols,
            ..self
        }
    }

    /// Rows and columns changed to `rows` × `cols`, keeping what fits; cursor clamped.
    pub open spec fn resized(self, rows: nat, cols: nat) -> ScreenModel {
        self.reshaped(rows, cols).clamped()
    }

    /// Cell `(r, c)` set to `cell`, when it is on the grid.
    pub open spec fn with_cell(self, r: int, c: int, cell: Cell) -> ScreenModel {
        if 0 <= r < self.rows && 0 <= c < self.cols {
            ScreenModel { grid: self.grid.update(r, self.grid[r].update(c, cell)), ..self }
        } else {
            self
        }
    }

    /// Top row dropped, blank row added at the bottom.
    pub open spec fn scrolled_up(self) -> ScreenModel {
        if self.rows == 0 {
            self
        } else {
            ScreenModel { grid: self.grid.drop_first().push(blank_row(self.cols)), ..self }
        }
    }

    /// Bottom row dropped, blank row added at the top.
    pub open spec fn scrolled_down(self) -> ScreenModel {
        if self.rows == 0 {
            self
        } else {
            ScreenModel { grid: seq![blank_row(self.cols)] + self.grid.drop_last(), ..self }
        }
    }

    /// Cursor moved down one row, scrolling when it leaves the bottom.
    pub open spec fn line_fed(self) -> ScreenModel {
        if self.cursor_row + 1 >= self.rows {
            ScreenModel { cursor_row: sat_dec(self.rows), ..self.scrolled_up() }
        } else {
            ScreenModel { cursor_row: self.cursor_row + 1, ..self }
        }
    }

    /// Cursor moved to the next multiple of 8 columns, wrapping to the next line.
    pub open spec fn tabbed(self) -> ScreenModel {
        let col = (self.cursor_col + 8) / 8 * 8;
        if col >= self.cols {
            ScreenModel { cursor_col: 0, ..self }.line_fed()
        } else {
            ScreenModel { cursor_col: col, ..self }
        }
    }

    /// `c` written at the cursor with the current attributes; the cursor advances and wraps.
    pub open spec fn with_char(self, c: char) -> ScreenModel {
        if self.cursor_row >= self.rows || self.cursor_col >= self.cols {
            self
        } else {
            let m = ScreenModel {
                cursor_col: self.cursor_col + 1,
                ..self.with_cell(
                    self.cursor_row as int,
                    self.cursor_col as int,
                    Cell { ch: c, fg: self.fg, bg: self.bg, bold: self.bold },
                )
            };
            if m.cursor_col >= m.cols {
                ScreenModel { cursor_col: 0, ..m }.line_fed()
            } else {
                m
            }
        }
    }

    /// Every cell `(r, c)` with `f(r, c)` blanked.
    pub open spec fn erased(self, f: spec_fn(int, int) -> bool) -> ScreenModel {
        ScreenModel {
            grid: Seq::new(
                self.rows,
                |r: int|
                    Seq::new(
                        self.cols,
                        |c: int|
                            if f(r, c) {
                                blank_cell()
                            } else {
                                self.grid[r][c]
                            },
                    ),
            ),
            ..self
        }
    }

    /// From the cursor to the end of the screen.
    pub open spec fn below_cursor(self) -> spec_fn(int, int) -> bool {
        |r: int, c: int| r > self.cursor_row || (r == self.cursor_row && c >= self.cursor_col)
    }

    /// From the start of the screen to the cursor.
    pub open spec fn above_cursor(self) -> spec_fn(int, int) -> bool {
        |r: int, c: int| r < self.cursor_row || (r == self.cursor_row && c <= self.cursor_col)
    }

    pub open spec fn everywhere() -> spec_fn(int, int) -> bool {
        |r: int, c: int| true
    }

    /// From the cursor to the end of its line.
    pub open spec fn right_of_cursor(self) -> spec_fn(int, int) -> bool {
        |r: int, c: int| r == self.cursor_row && c >= self.cursor_col
    }

    /// From the start of the cursor's line to the cursor.
    pub open spec fn left_of_cursor(self) -> spec_fn(int, int) -> bool {
        |r: int, c: int| r == self.cursor_row && c <= self.cursor_col
    }

    /// The cursor's line.
    pub open spec fn cursor_line(self) -> spec_fn(int, int) -> bool {
        |r: int, c: int| r == self.cursor_row
    }

    /// Effect of a C0 control byte (BS, TAB, LF/VT/FF, CR; others are ignored).
    pub open spec fn after_control(self, byte: u8) -> ScreenModel {
        if byte == 0x08 {
            ScreenModel { cursor_col: sat_dec(self.cursor_col), ..self }
        } else if byte == 0x09 {
            self.tabbed()
        } else if byte == 0x0a || byte == 0x0b || byte == 0x0c {
            self.line_fed()
        } else if byte == 0x0d {
            ScreenModel { cursor_col: 0, ..self }
        } else {
            self
        }
    }

    /// Effect of an ESC sequence with final byte `byte` (IND, RI, NEL, HTS-as-tab).
    pub open spec fn after_esc(self, byte: u8) -> ScreenModel {
        if byte == 0x44 {
            self.line_fed()
        } else if byte == 0x4d {
            if self.cursor_row > 0 {
                ScreenModel { cursor_row: (self.cursor_row - 1) as nat, ..self }
            } else {
                self.scrolled_down()
            }
        } else if byte == 0x45 {
            ScreenModel { cursor_col: 0, ..self }.line_fed()
        } else if byte == 0x48 {
            self.tabbed()
        } else {
            self
        }
    }

    /// Effect of the SGR parameters `p[i..]` on the current attributes.
    pub open spec fn after_sgr(self, p: Seq<u16>, i: nat) -> ScreenModel
        decreases p.len() + 4 - i,
    {
        if i >= p.len() {
            self
        } else {
            let code = p[i as int];
            if code == 0 {
                ScreenModel { fg: 7, bg: 0, bold: false, ..self }.after_sgr(p, i + 1)
            } else if code == 1 {
                ScreenModel { bold: true, ..self }.after_sgr(p, i + 1)
            } else if 30 <= code <= 37 {
                ScreenModel { fg: (code - 30) as u8, ..self }.after_sgr(p, i + 1)
            } else if code == 38 {
                if i + 2 < p.len() && p[i + 1int] == 5 {
                    ScreenModel { fg: (p[i + 2int] % 8) as u8, ..self }.after_sgr(p, i + 4)
                } else {
                    self.after_sgr(p, i + 2)
                }
            } else if code == 39 {
                ScreenModel { fg: 7, ..self }.after_sgr(p, i + 1)
            } else if 40 <= code <= 47 {
                ScreenModel { bg: (code - 40) as u8, ..self }.after_sgr(p, i + 1)
            } else if code == 48 {
                if i + 2 < p.len() && p[i + 1int] == 5 {
                    ScreenModel { bg: (p[i + 2int] % 8) as u8, ..self }.after_sgr(p, i + 4)
                } else {
                    self.after_sgr(p, i + 2)
                }
            } else if code == 49 {
                ScreenModel { bg: 0, ..self }.after_sgr(p, i + 1)
            } else {
                self.after_sgr(p, i + 1)
            }
        }
    }

    /// Effect of a CSI sequence with parameters `p` and final character `action`.
    pub open spec fn after_csi(self, p: Seq<u16>, action: char) -> ScreenModel {
        if action == 'H' || action == 'f' {
            ScreenModel {
                cursor_row: min_nat(sat_sub(param(p, 0), 1), sat_dec(self.rows)),
                cursor_col: min_nat(sat_sub(param(p, 1), 1), sat_dec(self.cols)),
                ..self
            }
        } else if action == 'A' {
            ScreenModel { cursor_row: sat_sub(self.cursor_row, param(p, 0)), ..self }
        } else if action == 'B' {
            ScreenModel {
                cursor_row: min_nat(self.cursor_row + param(p, 0), sat_dec(self.rows)),
                ..self
            }
        } else if action == 'C' {
            ScreenModel {
                cursor_col: min_nat(self.cursor_col + param(p, 0), sat_dec(self.cols)),
                ..self
            }
        } else if action == 'D' {
            ScreenModel { cursor_col: sat_sub(self.cursor_col, param(p, 0)), ..self }
        } else if action == 'G' {
            ScreenModel {
                cursor_col: min_nat(sat_sub(param(p, 0), 1), sat_dec(self.cols)),
                ..self
            }
        } else if action == 'd' {
            ScreenModel {
                cursor_row: min_nat(sat_sub(param(p, 0), 1), sat_dec(self.rows)),
                ..self
            }
        } else if action == 'J' {
            if param(p, 0) == 0 {
                self.erased(self.below_cursor())
            } else if param(p, 0) == 1 {
                self.erased(self.above_cursor())
            } else if param(p, 0) == 2 {
                self.erased(ScreenModel::everywhere())
            } else {
                self
            }
        } else if action == 'K' {
            if param(p, 0) == 0 {
                self.erased(self.right_of_cursor())
            } else if param(p, 0) == 1 {
                self.erased(self.left_of_cursor())
            } else if param(p, 0) == 2 {
                self.erased(self.cursor_line())
            } else {
                self
            }
        } else if action == 'm' {
            self.after_sgr(p, 0)
        } else {
            self
        }
    }

    /// The last `n` rows, each without trailing whitespace, joined by newlines.
    pub open spec fn recent_text(self, n: nat) -> Seq<char> {
        let start = sat_sub(self.rows, n);
        join_lines(
            Seq::new(
                (self.rows - start) as nat,
                |i: int| trim_end(row_chars(self.grid[start + i])),
            ),
        )
    }
}

// ---------------------------------------------------------------------------
// Executable screen
// ---------------------------------------------------------------------------

/// Terminal screen state: grid + cursor + size + current attributes.
pub struct Screen {
    /// Grid [row][col]. Row 0 = top.
    grid: Vec<Vec<Cell>>,
    rows: usize,
    cols: usize,
    cursor_row: usize,
    cursor_col: usize,
    cur_fg: u8,
    cur_bg: u8,
    cur_bold: bool,
}

impl View for Screen {
    type V = ScreenModel;

    closed spec fn view(&self) -> ScreenModel {
        ScreenModel {
            grid: self.grid@.map_values(|row: Vec<Cell>| row@),
            rows: self.rows as nat,
            cols: self.cols as nat,
            cursor_row: self.cursor_row as nat,
            cursor_col: self.cursor_col as nat,
            fg: self.cur_fg,
            bg: self.cur_bg,
            bold: self.cur_bold,
        }
    }
}

fn blank_row_vec(cols: usize) -> (v: Vec<Cell>)
    ensures
        v@ == blank_row(cols as nat),
{
    let mut v: Vec<Cell> = Vec::new();
    let mut i: usize = 0;
    while i < cols
        invariant
            i <= cols,
            v@ == blank_row(i as nat),
        decreases cols - i,
    {
        v.push(Cell::blank());
        assert(v@ =~= blank_row((i + 1) as nat));
        i = i + 1;
    }
    v
}

/// Cuts or pads `row` with blank cells to `cols` cells.
fn resize_row(row: &mut Vec<Cell>, cols: usize)
    ensures
        final(row)@ == resized_row(old(row)@, cols as nat),
{
    if row.len() >= cols {
        row.truncate(cols);
    } else {
        let ghost start = row@;
        while row.len() < cols
            invariant
                start.len() <= row@.len() <= cols,
                row@ == start + Seq::new((row@.len() - start.len()) as nat, |i: int| blank_cell()),
            decreases cols - row@.len(),
        {
            let ghost before = row@;
            row.push(Cell::blank());
            assert(row@ =~= start + Seq::new((row@.len() - start.len()) as nat, |i: int| blank_cell()));
        }
    }
}

impl Screen {
    /// The screen's model is well formed (see `ScreenModel::wf`).
    pub open spec fn wf(&self) -> bool {
        self@.wf()
    }

    pub fn new(rows: usize, cols: usize) -> (s: Screen)
        requires
            rows <= isize::MAX,
            cols <= isize::MAX,
        ensures
            s@ == ScreenModel::fresh(rows as nat, cols as nat),
            s.wf(),
    {
        let mut grid: Vec<Vec<Cell>> = Vec::new();
        let mut i: usize = 0;
        while i < rows
            invariant
                i <= rows,
                grid@.len() == i,
                forall|r: int| 0 <= r < i ==> (#[trigger] grid@[r])@ == blank_row(cols as nat),
            decreases rows - i,
        {
            grid.push(blank_row_vec(cols));
            i = i + 1;
        }
        let s = Screen {
            grid,
            rows,
            cols,
            cursor_row: 0,
            cursor_col: 0,
            cur_fg: 7,
            cur_bg: 0,
            cur_bold: false,
        };
        assert(s@.grid =~= Seq::new(rows as nat, |r: int| blank_row(cols as nat)));
        s
    }

    pub fn rows(&self) -> (n: usize)
        ensures
            n == self@.rows,
    {
        self.rows
    }

    pub fn cols(&self) -> (n: usize)
        ensures
            n == self@.cols,
    {
        self.cols
    }

    pub fn cursor_row(&self) -> (n: usize)
        ensures
            n == self@.cursor_row,
    {
        self.cursor_row
    }

    pub fn cursor_col(&self) -> (n: usize)
        ensures
            n == self@.cursor_col,
    {
        self.cursor_col
    }

    /// Number of rows held in the grid.
    pub fn grid_len(&self) -> (n: usize)
        ensures
            n == self@.grid.len(),
    {
        self.grid.len()
    }

    /// Number of cells held in row `r`.
    pub fn row_len(&self, r: usize) -> (n: usize)
        requires
            r < self@.grid.len(),
        ensures
            n == self@.grid[r as int].len(),
    {
        self.grid[r].len()
    }

    /// The cell at row `r`, column `c`.
    pub fn cell(&self, r: usize, c: usize) -> (cell: Cell)
        requires
            r < self@.grid.len(),
            c < self@.grid[r as int].len(),
        ensures
            cell == self@.grid[r as int][c as int],
    {
        self.grid[r][c]
    }

    /// Moves the cursor back onto the grid.
    pub fn clamp_cursor(&mut self)
        ensures
            final(self)@ == old(self)@.clamped(),
    {
        if self.cursor_row >= self.rows {
            self.cursor_row = if self.rows == 0 {
                0
            } else {
                self.rows - 1
            };
        }
        if self.cursor_col >= self.cols {
            self.cursor_col = if self.cols == 0 {
                0
            } else {
                self.cols - 1
            };
        }
    }

    pub fn resize(&mut self, rows: usize, cols: usize)
        requires
            old(self).wf(),
            rows <= isize::MAX,
            cols <= isize::MAX,
        ensures
            final(self)@ == old(self)@.resized(rows as nat, cols as nat),
            final(self).wf(),
    {
        let ghost old_grid = self@.grid;
        self.rows = rows;
        self.cols = cols;
        if self.grid.len() > rows {
            self.grid.truncate(rows);
            assert(forall|k: int| 0 <= k < rows ==> (#[trigger] self.grid@[k])@ == old_grid[k]);
        } else {
            while self.grid.len() < rows
                invariant
                    self.cursor_row == old(self).cursor_row,
                    self.cursor_col == old(self).cursor_col,
                    self.cur_fg == old(self).cur_fg,
                    self.cur_bg == old(self).cur_bg,
                    self.cur_bold == old(self).cur_bold,
                    self.rows == rows,
                    self.cols == cols,
                    self.grid@.len() <= rows,
                    old_grid.len() <= self.grid@.len(),
                    forall|r: int|
                        0 <= r < self.grid@.len() ==> (#[trigger] self.grid@[r])@ == if r
                            < old_grid.len() {
                            old_grid[r]
                        } else {
                            Seq::<Cell>::empty()
                        },
                decreases rows - self.grid@.len(),
            {
                self.grid.push(Vec::new());
            }
        }
        let mut r: usize = 0;
        while r < rows
            invariant
                self.cursor_row == old(self).cursor_row,
                self.cursor_col == old(self).cursor_col,
                self.cur_fg == old(self).cur_fg,
                self.cur_bg == old(self).cur_bg,
                self.cur_bold == old(self).cur_bold,
                self.grid@.len() == rows,
                self.rows == rows,
                self.cols == cols,
                r <= rows,
                forall|k: int|
                    0 <= k < rows ==> (#[trigger] self.grid@[k])@ == if k < r {
                        resized_row(
                            if k < old_grid.len() {
                                old_grid[k]
                            } else {
                                Seq::empty()
                            },
                            cols as nat,
                        )
                    } else if k < old_grid.len() {
                        old_grid[k]
                    } else {
                        Seq::empty()
                    },
            decreases rows - r,
        {
            resize_row(&mut self.grid[r], cols);
            r = r + 1;
        }
        let ghost before_clamp = self@;
        assert(before_clamp.grid =~= old(self)@.reshaped(rows as nat, cols as nat).grid);
        assert(before_clamp == old(self)@.reshaped(rows as nat, cols as nat));
        self.clamp_cursor();
    }

    /// Writes `cell` at `(row, col)` when that is on the grid.
    pub fn put_cell(&mut self, row: usize, col: usize, cell: Cell)
        requires
            old(self).wf(),
        ensures
            final(self)@ == old(self)@.with_cell(row as int, col as int, cell),
            final(self).wf(),
    {
        if row < self.rows && col < self.cols {
            assert(self@.grid[row as int].len() == self.cols);
            self.grid[row][col] = cell;
            assert(self@.grid =~= old(self)@.grid.update(
                row as int,
                old(self)@.grid[row as int].update(col as int, cell),
            ));
        }
    }

    pub fn scroll_up(&mut self)
        requires
            old(self).wf(),
        ensures
            final(self)@ == old(self)@.scrolled_up(),
            final(self).wf(),
    {
        if self.rows == 0 {
            return;
        }
        self.grid.remove(0);
        self.grid.push(blank_row_vec(self.cols));
        assert(self@.grid =~= old(self)@.grid.drop_first().push(blank_row(self.cols as nat)));
    }

    pub fn scroll_down(&mut self)
        requires
            old(self).wf(),
        ensures
            final(self)@ == old(self)@.scrolled_down(),
            final(self).wf(),
    {
        if self.rows == 0 {
            return;
        }
        self.grid.pop();
        self.grid.insert(0, blank_row_vec(self.cols));
        assert(self@.grid =~= seq![blank_row(self.cols as nat)] + old(self)@.grid.drop_last());
    }

    /// Cursor down one row, scrolling up when it leaves the bottom.
    fn line_feed(&mut self)
        requires
            old(self).wf(),
        ensures
            final(self)@ == old(self)@.line_fed(),
            final(self).wf(),
    {
        if self.cursor_row + 1 >= self.rows {
            self.scroll_up();
            self.cursor_row = if self.rows == 0 {
                0
            } else {
                self.rows - 1
            };
        } else {
            self.cursor_row = self.cursor_row + 1;
        }
    }

    /// Cursor to the next multiple of 8 columns, wrapping to the next line.
    fn tab(&mut self)
        requires
            old(self).wf(),
        ensures
            final(self)@ == old(self)@.tabbed(),
            final(self).wf(),
    {
        let col = (self.cursor_col + 8) / 8 * 8;
        if col >= self.cols {
            self.cursor_col = 0;
            self.line_feed();
        } else {
            self.cursor_col = col;
        }
    }

    pub fn put_char(&mut self, c: char)
        requires
            old(self).wf(),
        ensures
            final(self)@ == old(self)@.with_char(c),
            final(self).wf(),
    {
        if self.cursor_row >= self.rows || self.cursor_col >= self.cols {
            return;
        }
        let cell = Cell { ch: c, fg: self.cur_fg, bg: self.cur_bg, bold: self.cur_bold };
        self.put_cell(self.cursor_row, self.cursor_col, cell);
        self.cursor_col = self.cursor_col + 1;
        if self.cursor_col >= self.cols {
            self.cursor_col = 0;
            self.line_feed();
        }
    }

    /// Blanks the cells `[from, to)` of row `r`.
    fn blank_cells(&mut self, r: usize, from: usize, to: usize)
        requires
            old(self).wf(),
            r < old(self)@.rows,
            from <= to <= old(self)@.cols,
        ensures
            final(self).wf(),
            final(self)@ == old(self)@.erased(|rr: int, cc: int| rr == r && from <= cc < to),
    {
        let ghost m0 = self@;
        let mut c = from;
        assert(self@.grid =~~= m0.erased(|rr: int, cc: int| rr == r && from <= cc < from).grid);
        while c < to
            invariant
                self.wf(),
                from <= c <= to <= self@.cols,
                r < self@.rows,
                self@ == m0.erased(|rr: int, cc: int| rr == r && from <= cc < c),
            decreases to - c,
        {
            let ghost before = self@;
            self.put_cell(r, c, Cell::blank());
            assert(self@.grid =~~= m0.erased(|rr: int, cc: int| rr == r && from <= cc < c + 1).grid);
            c = c + 1;
        }
        assert(self@.grid =~~= m0.erased(|rr: int, cc: int| rr == r && from <= cc < to).grid);
    }

    pub fn erase_from_cursor_to_end_of_screen(&mut self)
        requires
            old(self).wf(),
        ensures
            final(self).wf(),
            final(self)@ == old(self)@.erased(old(self)@.below_cursor()),
    {
        let ghost m0 = self@;
        let mut r = self.cursor_row;
        if r < self.rows {
            self.blank_cells(r, self.cursor_col, self.cols);
            assert(self@.grid =~~= m0.erased(
                |rr: int, cc: int|
                    rr < r + 1 && (rr > m0.cursor_row || (rr == m0.cursor_row && cc >= m0.cursor_col)),
            ).grid);
            r = r + 1;
            while r < self.rows
                invariant
                    self.wf(),
                    self@.rows == m0.rows && self@.cols == m0.cols,
                    self@.cursor_row == m0.cursor_row && self@.cursor_col == m0.cursor_col,
                    m0.cursor_row < r <= m0.rows,
                    self@ == m0.erased(
                        |rr: int, cc: int|
                            rr < r && (rr > m0.cursor_row || (rr == m0.cursor_row && cc
                                >= m0.cursor_col)),
                    ),
                decreases self.rows - r,
            {
                let ghost before = self@;
                self.blank_cells(r, 0, self.cols);
                assert(self@.grid =~~= m0.erased(
                    |rr: int, cc: int|
                        rr < r + 1 && (rr > m0.cursor_row || (rr == m0.cursor_row && cc
                            >= m0.cursor_col)),
                ).grid);
                r = r + 1;
            }
        }
        assert(self@.grid =~~= m0.erased(m0.below_cursor()).grid);
    }

    pub fn erase_from_start_to_cursor(&mut self)
        requires
            old(self).wf(),
        ensures
            final(self).wf(),
            final(self)@ == old(self)@.erased(old(self)@.above_cursor()),
    {
        let ghost m0 = self@;
        if self.rows == 0 {
            assert(self@.grid =~~= m0.erased(m0.above_cursor()).grid);
            return;
        }
        let mut r: usize = 0;
        assert(self@.grid =~~= m0.erased(|rr: int, cc: int| rr < 0).grid);
        while r < self.cursor_row
            invariant
                self.wf(),
                self@.rows == m0.rows && self@.cols == m0.cols,
                self@.cursor_row == m0.cursor_row && self@.cursor_col == m0.cursor_col,
                r <= m0.cursor_row < m0.rows,
                self@ == m0.erased(|rr: int, cc: int| rr < r),
            decreases self.cursor_row - r,
        {
            self.blank_cells(r, 0, self.cols);
            assert(self@.grid =~~= m0.erased(|rr: int, cc: int| rr < r + 1).grid);
            r = r + 1;
        }
        let end = if self.cursor_col < self.cols {
            self.cursor_col + 1
        } else {
            self.cols
        };
        self.blank_cells(self.cursor_row, 0, end);
        assert(self@.grid =~~= m0.erased(m0.above_cursor()).grid);
    }

    pub fn erase_entire_screen(&mut self)
        requires
            old(self).wf(),
        ensures
            final(self).wf(),
            final(self)@ == old(self)@.erased(ScreenModel::everywhere()),
    {
        let ghost m0 = self@;
        let mut r: usize = 0;
        assert(self@.grid =~~= m0.erased(|rr: int, cc: int| rr < 0).grid);
        while r < self.rows
            invariant
                self.wf(),
                self@.rows == m0.rows && self@.cols == m0.cols,
                self@.cursor_row == m0.cursor_row && self@.cursor_col == m0.cursor_col,
                r <= m0.rows,
                self@ == m0.erased(|rr: int, cc: int| rr < r),
            decreases self.rows - r,
        {
            self.blank_cells(r, 0, self.cols);
            assert(self@.grid =~~= m0.erased(|rr: int, cc: int| rr < r + 1).grid);
            r = r + 1;
        }
        assert(self@.grid =~~= m0.erased(ScreenModel::everywhere()).grid);
    }

    pub fn erase_from_cursor_to_end_of_line(&mut self)
        requires
            old(self).wf(),
        ensures
            final(self).wf(),
            final(self)@ == old(self)@.erased(old(self)@.right_of_cursor()),
    {
        let ghost m0 = self@;
        if self.cursor_row < self.rows {
            self.blank_cells(self.cursor_row, self.cursor_col, self.cols);
        }
        assert(self@.grid =~~= m0.erased(m0.right_of_cursor()).grid);
    }

    pub fn erase_from_start_to_cursor_in_line(&mut self)
        requires
            old(self).wf(),
        ensures
            final(self).wf(),
            final(self)@ == old(self)@.erased(old(self)@.left_of_cursor()),
    {
        let ghost m0 = self@;
        if self.cursor_row < self.rows {
            let end = if self.cursor_col < self.cols {
                self.cursor_col + 1
            } else {
                self.cols
            };
            self.blank_cells(self.cursor_row, 0, end);
        }
        assert(self@.grid =~~= m0.erased(m0.left_of_cursor()).grid);
    }

    pub fn erase_entire_line(&mut self)
        requires
            old(self).wf(),
        ensures
            final(self).wf(),
            final(self)@ == old(self)@.erased(old(self)@.cursor_line()),
    {
        let ghost m0 = self@;
        if self.cursor_row < self.rows {
            self.blank_cells(self.cursor_row, 0, self.cols);
        }
        assert(self@.grid =~~= m0.erased(m0.cursor_line()).grid);
    }

    /// Last N rows of the grid as plain text (trimmed at the end, newline-joined).
    pub fn get_recent_text(&self, last_n_rows: usize) -> (text: String)
        requires
            self.wf(),
        ensures
            text@ == self@.recent_text(last_n_rows as nat),
    {
        let start = if self.rows >= last_n_rows {
            self.rows - last_n_rows
        } else {
            0
        };
        let ghost lines = Seq::new(
            (self@.rows - start) as nat,
            |i: int| trim_end(row_chars(self@.grid[start + i])),
        );
        let mut out = String::new();
        let mut r = start;
        assert(lines.take(0) =~= Seq::<Seq<char>>::empty());
        while r < self.rows
            invariant
                self.wf(),
                start <= r <= self@.rows,
                lines.len() == self@.rows - start,
                forall|i: int|
                    0 <= i < lines.len() ==> #[trigger] lines[i] == trim_end(
                        row_chars(self@.grid[start + i]),
                    ),
                out@ == join_lines(lines.take(r - start)),
            decreases self.rows - r,
        {
            let row = &self.grid[r];
            let mut chars: Vec<char> = Vec::new();
            let mut c: usize = 0;
            while c < row.len()
                invariant
                    c <= row@.len(),
                    chars@ == row_chars(row@).take(c as int),
                decreases row@.len() - c,
            {
                chars.push(row[c].ch);
                assert(chars@ =~= row_chars(row@).take(c + 1));
                c = c + 1;
            }
            assert(chars@ =~= row_chars(row@));
            let e = skip_ws_backward(&chars, 0, chars.len());
            assert(chars@.subrange(0, chars@.len() as int) =~= chars@);
            let line = string_of_range(&chars, 0, e);
            assert(row@ == self@.grid[r as int]);
            push_joined_line(&mut out, r - start, &line, Ghost(lines));
            r = r + 1;
        }
        assert(lines.take(self@.rows - start) =~= lines);
        out
    }

    /// Effect of a control byte (BS, TAB, LF, VT, FF, CR).
    pub fn execute(&mut self, byte: u8)
        requires
            old(self).wf(),
        ensures
            final(self).wf(),
            final(self)@ == old(self)@.after_control(byte),
    {
        if byte == 0x08 {
            self.cursor_col = if self.cursor_col == 0 {
                0
            } else {
                self.cursor_col - 1
            };
        } else if byte == 0x09 {
            self.tab();
        } else if byte == 0x0a || byte == 0x0b || byte == 0x0c {
            self.line_feed();
        } else if byte == 0x0d {
            self.cursor_col = 0;
        }
    }

    /// Effect of an ESC sequence ending in `byte`.
    pub fn esc_dispatch(&mut self, byte: u8)
        requires
            old(self).wf(),
        ensures
            final(self).wf(),
            final(self)@ == old(self)@.after_esc(byte),
    {
        if byte == 0x44 {
            self.line_feed();
        } else if byte == 0x4d {
            if self.cursor_row > 0 {
                self.cursor_row = self.cursor_row - 1;
            } else {
                self.scroll_down();
            }
        } else if byte == 0x45 {
            self.cursor_col = 0;
            self.line_feed();
        } else if byte == 0x48 {
            self.tab();
        }
    }

    /// Effect of the SGR parameters `p` on the current attributes.
    fn select_graphic_rendition(&mut self, p: &[u16])
        requires
            old(self).wf(),
        ensures
            final(self).wf(),
            final(self)@ == old(self)@.after_sgr(p@, 0),
    {
        let ghost m0 = self@;
        let mut i: usize = 0;
        while i < p.len()
            invariant
                self.wf(),
                m0.after_sgr(p@, 0) == self@.after_sgr(p@, i as nat),
            decreases if i < p.len() {
                p.len() - i
            } else {
                0
            },
        {
            let code = p[i];
            let mut step: usize = 1;
            if code == 0 {
                self.cur_fg = 7;
                self.cur_bg = 0;
                self.cur_bold = false;
            } else if code == 1 {
                self.cur_bold = true;
            } else if 30 <= code && code <= 37 {
                self.cur_fg = (code - 30) as u8;
            } else if code == 38 {
                if i + 1 < p.len() && p[i + 1] == 5 && i + 2 < p.len() {
                    self.cur_fg = (p[i + 2] % 8) as u8;
                    step = 4;
                } else {
                    step = 2;
                }
            } else if code == 39 {
                self.cur_fg = 7;
            } else if 40 <= code && code <= 47 {
                self.cur_bg = (code - 40) as u8;
            } else if code == 48 {
                if i + 1 < p.len() && p[i + 1] == 5 && i + 2 < p.len() {
                    self.cur_bg = (p[i + 2] % 8) as u8;
                    step = 4;
                } else {
                    step = 2;
                }
            } else if code == 49 {
                self.cur_bg = 0;
            }
            if i > usize::MAX - step {
                proof {
                    assert(self@.after_sgr(p@, (i + step) as nat) == self@);
                }
                i = usize::MAX;
            } else {
                i = i + step;
            }
        }
    }

    /// Effect of a CSI sequence with parameters `params` and final character `action`.
    pub fn csi_dispatch(&mut self, params: &[u16], action: char)
        requires
            old(self).wf(),
        ensures
            final(self).wf(),
            final(self)@ == old(self)@.after_csi(params@, action),
    {
        let p0: usize = if params.len() > 0 {
            params[0] as usize
        } else {
            1
        };
        let p1: usize = if params.len() > 1 {
            params[1] as usize
        } else {
            1
        };
        let last_row = if self.rows == 0 {
            0
        } else {
            self.rows - 1
        };
        let last_col = if self.cols == 0 {
            0
        } else {
            self.cols - 1
        };
        let dec0 = if p0 == 0 {
            0
        } else {
            p0 - 1
        };
        let dec1 = if p1 == 0 {
            0
        } else {
            p1 - 1
        };
        if action == 'H' || action == 'f' {
            self.cursor_row = if dec0 < last_row {
                dec0
            } else {
                last_row
            };
            self.cursor_col = if dec1 < last_col {
                dec1
            } else {
                last_col
            };
        } else if action == 'A' {
            self.cursor_row = if self.cursor_row >= p0 {
                self.cursor_row - p0
            } else {
                0
            };
        } else if action == 'B' {
            let r = self.cursor_row + p0;
            self.cursor_row = if r < last_row {
                r
            } else {
                last_row
            };
        } else if action == 'C' {
            let c = self.cursor_col + p0;
            self.cursor_col = if c < last_col {
                c
            } else {
                last_col
            };
        } else if action == 'D' {
            self.cursor_col = if self.cursor_col >= p0 {
                self.cursor_col - p0
            } else {
                0
            };
        } else if action == 'G' {
            self.cursor_col = if dec0 < last_col {
                dec0
            } else {
                last_col
            };
        } else if action == 'd' {
            self.cursor_row = if dec0 < last_row {
                dec0
            } else {
                last_row
            };
        } else if action == 'J' {
            if p0 == 0 {
                self.erase_from_cursor_to_end_of_screen();
            } else if p0 == 1 {
                self.erase_from_start_to_cursor();
            } else if p0 == 2 {
                self.erase_entire_screen();
            }
        } else if action == 'K' {
            if p0 == 0 {
                self.erase_from_cursor_to_end_of_line();
            } else if p0 == 1 {
                self.erase_from_start_to_cursor_in_line();
            } else if p0 == 2 {
                self.erase_entire_line();
            }
        } else if action == 'm' {
            self.select_graphic_rendition(params);
        }
    }
}

// ---------------------------------------------------------------------------
// Laws
// ---------------------------------------------------------------------------

proof fn lemma_blank_row_standard(cols: nat)
    ensures
        forall|c: int| 0 <= c < cols ==> (#[trigger] blank_row(cols)[c]) == blank_cell(),
{
}

proof fn lemma_scrolls_keep_colours(m: ScreenModel)
    requires
        m.wf(),
        m.colors_standard(),
    ensures
        m.scrolled_up().colors_standard(),
        m.scrolled_down().colors_standard(),
        m.line_fed().colors_standard(),
        m.tabbed().colors_standard(),
        m.scrolled_up().wf(),
        m.scrolled_down().wf(),
{
    lemma_blank_row_standard(m.cols);
    if m.rows > 0 {
        let g = m.scrolled_up().grid;
        assert forall|r: int, c: int| 0 <= r < g.len() && 0 <= c < g[r].len() implies (#[trigger] g[r][c]).fg
            < 8 && g[r][c].bg < 8 by {
            if r < g.len() - 1 {
                assert(g[r] == m.grid[r + 1]);
            } else {
                assert(g[r] == blank_row(m.cols));
            }
        }
        let h = m.scrolled_down().grid;
        assert forall|r: int, c: int| 0 <= r < h.len() && 0 <= c < h[r].len() implies (#[trigger] h[r][c]).fg
            < 8 && h[r][c].bg < 8 by {
            if r == 0 {
                assert(h[r] == blank_row(m.cols));
            } else {
                assert(h[r] == m.grid[r - 1]);
            }
        }
        assert forall|r: int| 0 <= r < m.rows implies (#[trigger] g[r]).len() == m.cols by {
            if r < g.len() - 1 {
                assert(g[r] == m.grid[r + 1]);
            }
        }
        assert forall|r: int| 0 <= r < m.rows implies (#[trigger] h[r]).len() == m.cols by {
            if r > 0 {
                assert(h[r] == m.grid[r - 1]);
            }
        }
    }
    let t = ScreenModel { cursor_col: 0, ..m };
    assert(t.scrolled_up().grid == m.scrolled_up().grid);
}

proof fn lemma_sgr_keeps_colours(m: ScreenModel, p: Seq<u16>, i: nat)
    requires
        m.colors_standard(),
    ensures
        m.after_sgr(p, i).colors_standard(),
        m.after_sgr(p, i).grid == m.grid,
    decreases p.len() + 4 - i,
{
    if i < p.len() {
        let code = p[i as int];
        if code == 0 {
            lemma_sgr_keeps_colours(ScreenModel { fg: 7, bg: 0, bold: false, ..m }, p, i + 1);
        } else if code == 1 {
            lemma_sgr_keeps_colours(ScreenModel { bold: true, ..m }, p, i + 1);
        } else if 30 <= code <= 37 {
            lemma_sgr_keeps_colours(ScreenModel { fg: (code - 30) as u8, ..m }, p, i + 1);
        } else if code == 38 {
            if i + 2 < p.len() && p[i + 1int] == 5 {
                lemma_sgr_keeps_colours(ScreenModel { fg: (p[i + 2int] % 8) as u8, ..m }, p, i + 4);
            } else {
                lemma_sgr_keeps_colours(m, p, i + 2);
            }
        } else if code == 39 {
            lemma_sgr_keeps_colours(ScreenModel { fg: 7, ..m }, p, i + 1);
        } else if 40 <= code <= 47 {
            lemma_sgr_keeps_colours(ScreenModel { bg: (code - 40) as u8, ..m }, p, i + 1);
        } else if code == 48 {
            if i + 2 < p.len() && p[i + 1int] == 5 {
                lemma_sgr_keeps_colours(ScreenModel { bg: (p[i + 2int] % 8) as u8, ..m }, p, i + 4);
            } else {
                lemma_sgr_keeps_colours(m, p, i + 2);
            }
        } else if code == 49 {
            lemma_sgr_keeps_colours(ScreenModel { bg: 0, ..m }, p, i + 1);
        } else {
            lemma_sgr_keeps_colours(m, p, i + 1);
        }
    }
}

proof fn lemma_erase_keeps_colours(m: ScreenModel, f: spec_fn(int, int) -> bool)
    requires
        m.wf(),
        m.colors_standard(),
    ensures
        m.erased(f).colors_standard(),
{
    let g = m.erased(f).grid;
    assert forall|r: int, c: int| 0 <= r < g.len() && 0 <= c < g[r].len() implies (#[trigger] g[r][c]).fg
        < 8 && g[r][c].bg < 8 by {
        assert(m.grid[r].len() == m.cols);
    }
}

/// The screen only ever holds the 8 standard colours: a new screen starts with them, and
/// printed characters, control bytes, ESC and CSI sequences (SGR included), scrolls and
/// resizes keep the current attributes and every cell within them.
pub proof fn lemma_colours_stay_standard(
    m: ScreenModel,
    c: char,
    byte: u8,
    p: Seq<u16>,
    action: char,
    rows: nat,
    cols: nat,
)
    requires
        m.wf(),
        m.colors_standard(),
    ensures
        ScreenModel::fresh(rows, cols).colors_standard(),
        m.with_char(c).colors_standard(),
        m.after_control(byte).colors_standard(),
        m.after_esc(byte).colors_standard(),
        m.after_csi(p, action).colors_standard(),
        m.resized(rows, cols).colors_standard(),
        m.scrolled_up().colors_standard(),
        m.scrolled_down().colors_standard(),
{
    lemma_blank_row_standard(cols);
    lemma_blank_row_standard(m.cols);
    lemma_scrolls_keep_colours(m);
    // printed character
    if m.cursor_row < m.rows && m.cursor_col < m.cols {
        let cell = Cell { ch: c, fg: m.fg, bg: m.bg, bold: m.bold };
        let w = m.with_cell(m.cursor_row as int, m.cursor_col as int, cell);
        assert forall|r: int, cc: int| 0 <= r < w.grid.len() && 0 <= cc < w.grid[r].len() implies (#[trigger] w.grid[r][cc]).fg
            < 8 && w.grid[r][cc].bg < 8 by {
            if r == m.cursor_row {
                assert(w.grid[r] == m.grid[r].update(m.cursor_col as int, cell));
            }
        }
        assert(w.wf());
        let k = ScreenModel { cursor_col: (m.cursor_col + 1) as nat, ..w };
        if k.cursor_col >= k.cols {
            let z = ScreenModel { cursor_col: 0, ..k };
            lemma_scrolls_keep_colours(z);
        }
    }
    // control bytes and ESC sequences
    let z0 = ScreenModel { cursor_col: 0, ..m };
    lemma_scrolls_keep_colours(z0);
    // CSI sequences
    lemma_sgr_keeps_colours(m, p, 0);
    lemma_erase_keeps_colours(m, m.below_cursor());
    lemma_erase_keeps_colours(m, m.above_cursor());
    lemma_erase_keeps_colours(m, ScreenModel::everywhere());
    lemma_erase_keeps_colours(m, m.right_of_cursor());
    lemma_erase_keeps_colours(m, m.left_of_cursor());
    lemma_erase_keeps_colours(m, m.cursor_line());
    // resize
    let g = m.resized(rows, cols).grid;
    assert forall|r: int, cc: int| 0 <= r < g.len() && 0 <= cc < g[r].len() implies (#[trigger] g[r][cc]).fg
        < 8 && g[r][cc].bg < 8 by {
        let old_row = if r < m.grid.len() {
            m.grid[r]
        } else {
            Seq::<Cell>::empty()
        };
        if old_row.len() >= cols {
        } else if cc >= old_row.len() {
            assert(g[r][cc] == blank_cell());
        }
    }
}

/// Resizing a screen to the size it already has changes nothing; so resizing twice to the
/// same size is the same as resizing once.
pub proof fn lemma_resize_to_same_size(m: ScreenModel, rows: nat, cols: nat)
    requires
        m.wf(),
        rows <= isize::MAX,
        cols <= isize::MAX,
    ensures
        m.resized(m.rows, m.cols) == m,
        m.resized(rows, cols).wf(),
        m.resized(rows, cols).resized(rows, cols) == m.resized(rows, cols),
{
    lemma_resize_same(m);
    let n = m.resized(rows, cols);
    assert forall|r: int| 0 <= r < rows implies (#[trigger] n.grid[r]).len() == cols by {
    }
    lemma_resize_same(n);
}

proof fn lemma_resize_same(m: ScreenModel)
    requires
        m.wf(),
    ensures
        m.resized(m.rows, m.cols) == m,
{
    let g = m.resized(m.rows, m.cols).grid;
    assert forall|r: int| 0 <= r < m.rows implies #[trigger] g[r] == m.grid[r] by {
        assert(m.grid[r].take(m.cols as int) =~= m.grid[r]);
    }
    assert(g =~= m.grid);
}

/// A printed character can be read back: it lands in the cell under the cursor, with the
/// current attributes, and stays there unless writing into the last cell of the last row
/// scrolls the screen, which moves it up one row.
pub proof fn lemma_printed_char_reads_back(m: ScreenModel, c: char)
    requires
        m.wf(),
        m.rows > 0,
        m.cols > 0,
    ensures
        ({
            let cell = Cell { ch: c, fg: m.fg, bg: m.bg, bold: m.bold };
            let after = m.with_char(c);
            let scrolls = m.cursor_col + 1 >= m.cols && m.cursor_row + 1 >= m.rows;
            &&& !scrolls ==> after.grid[m.cursor_row as int][m.cursor_col as int] == cell
            &&& scrolls && m.rows > 1 ==> after.grid[m.cursor_row - 1][m.cursor_col as int] == cell
            &&& after.wf()
        }),
{
    let cell = Cell { ch: c, fg: m.fg, bg: m.bg, bold: m.bold };
    let w = m.with_cell(m.cursor_row as int, m.cursor_col as int, cell);
    assert(w.grid[m.cursor_row as int] == m.grid[m.cursor_row as int].update(m.cursor_col as int, cell));
    assert(w.wf());
    let k = ScreenModel { cursor_col: (m.cursor_col + 1) as nat, ..w };
    if k.cursor_col >= k.cols {
        let z = ScreenModel { cursor_col: 0, ..k };
        if z.cursor_row + 1 >= z.rows {
            assert(z.scrolled_up().grid == z.grid.drop_first().push(blank_row(z.cols)));
            if m.rows > 1 {
                assert(z.scrolled_up().grid[m.cursor_row - 1] == z.grid[m.cursor_row as int]);
            }
        }
        lemma_scrolls_keep_wf(z);
    }
}

proof fn lemma_scrolls_keep_wf(m: ScreenModel)
    requires
        m.wf(),
    ensures
        m.line_fed().wf(),
{
    if m.rows > 0 {
        let g = m.scrolled_up().grid;
        assert forall|r: int| 0 <= r < m.rows implies (#[trigger] g[r]).len() == m.cols by {
            if r < g.len() - 1 {
                assert(g[r] == m.grid[r + 1]);
            }
        }
    }
}

/// CSI cursor movement moves the cursor by the count (default 1) or to the 1-based
/// position given, stopping at the edges of the grid, and changes nothing else:
/// `A`/`B` up/down, `C`/`D` right/left, `H`/`f` to row;column, `G` to a column, `d` to a row.
pub proof fn lemma_csi_cursor_moves(m: ScreenModel, p: Seq<u16>)
    ensures
        ({
            let n: int = if p.len() > 0 {
                p[0] as int
            } else {
                1
            };
            let n1: int = if p.len() > 1 {
                p[1] as int
            } else {
                1
            };
            let last_row: int = if m.rows > 0 {
                m.rows - 1
            } else {
                0
            };
            let last_col: int = if m.cols > 0 {
                m.cols - 1
            } else {
                0
            };
            let to_row: int = if n >= 1 {
                n - 1
            } else {
                0
            };
            let to_col: int = if n1 >= 1 {
                n1 - 1
            } else {
                0
            };
            &&& m.after_csi(p, 'B') == ScreenModel {
                cursor_row: (if m.cursor_row + n <= last_row {
                    m.cursor_row + n
                } else {
                    last_row
                }) as nat,
                ..m
            }
            &&& m.after_csi(p, 'A') == ScreenModel {
                cursor_row: (if m.cursor_row >= n {
                    m.cursor_row - n
                } else {
                    0
                }) as nat,
                ..m
            }
            &&& m.after_csi(p, 'C') == ScreenModel {
                cursor_col: (if m.cursor_col + n <= last_col {
                    m.cursor_col + n
                } else {
                    last_col
                }) as nat,
                ..m
            }
            &&& m.after_csi(p, 'D') == ScreenModel {
                cursor_col: (if m.cursor_col >= n {
                    m.cursor_col - n
                } else {
                    0
                }) as nat,
                ..m
            }
            &&& m.after_csi(p, 'H') == ScreenModel {
                cursor_row: (if to_row <= last_row {
                    to_row
                } else {
                    last_row
                }) as nat,
                cursor_col: (if to_col <= last_col {
                    to_col
                } else {
                    last_col
                }) as nat,
                ..m
            }
            &&& m.after_csi(p, 'f') == m.after_csi(p, 'H')
            &&& m.after_csi(p, 'G') == ScreenModel {
                cursor_col: (if to_row <= last_col {
                    to_row
                } else {
                    last_col
                }) as nat,
                ..m
            }
            &&& m.after_csi(p, 'd') == ScreenModel {
                cursor_row: (if to_row <= last_row {
                    to_row
                } else {
                    last_row
                }) as nat,
                ..m
            }
        }),
{
}

/// Moving down `a` rows and then `b` rows lands where moving down `a + b` rows does.
pub proof fn lemma_csi_down_adds(m: ScreenModel, a: u16, b: u16)
    requires
        a as int + b as int <= u16::MAX,
    ensures
        m.after_csi(seq![a], 'B').after_csi(seq![b], 'B') == m.after_csi(seq![(a + b) as u16], 'B'),
{
}

proof fn lemma_sgr_shift(m: ScreenModel, p: Seq<u16>, i: nat)
    requires
        p.len() > 0,
    ensures
        m.after_sgr(p, i + 1) == m.after_sgr(p.drop_first(), i),
    decreases p.len() + 4 - (i + 1),
{
    let q = p.drop_first();
    if i + 1 < p.len() {
        assert(p[i + 1int] == q[i as int]);
        if i + 2 < p.len() {
            assert(p[i + 2int] == q[i + 1int]);
        }
        if i + 3 < p.len() {
            assert(p[i + 3int] == q[i + 2int]);
        }
        let code = p[i + 1int];
        if code == 0 {
            lemma_sgr_shift(ScreenModel { fg: 7, bg: 0, bold: false, ..m }, p, i + 1);
        } else if code == 1 {
            lemma_sgr_shift(ScreenModel { bold: true, ..m }, p, i + 1);
        } else if 30 <= code <= 37 {
            lemma_sgr_shift(ScreenModel { fg: (code - 30) as u8, ..m }, p, i + 1);
        } else if code == 38 {
            if i + 3 < p.len() && p[i + 2int] == 5 {
                lemma_sgr_shift(ScreenModel { fg: (p[i + 3int] % 8) as u8, ..m }, p, i + 4);
            } else {
                lemma_sgr_shift(m, p, i + 2);
            }
        } else if code == 39 {
            lemma_sgr_shift(ScreenModel { fg: 7, ..m }, p, i + 1);
        } else if 40 <= code <= 47 {
            lemma_sgr_shift(ScreenModel { bg: (code - 40) as u8, ..m }, p, i + 1);
        } else if code == 48 {
            if i + 3 < p.len() && p[i + 2int] == 5 {
                lemma_sgr_shift(ScreenModel { bg: (p[i + 3int] % 8) as u8, ..m }, p, i + 4);
            } else {
                lemma_sgr_shift(m, p, i + 2);
            }
        } else if code == 49 {
            lemma_sgr_shift(ScreenModel { bg: 0, ..m }, p, i + 1);
        } else {
            lemma_sgr_shift(m, p, i + 1);
        }
    }
}

/// What each SGR parameter does to the current attributes, alone: 0 resets to the default
/// colours (7 on 0) without bold, 1 sets bold, 30–37 and 40–47 pick the foreground and
/// background colour, 39 and 49 restore the default foreground (7) and background (0),
/// `38;5;n` and `48;5;n` pick colour `n` modulo 8, and every other parameter changes nothing;
/// and a parameter other than 38 or 48 takes effect before the ones after it.
pub proof fn lemma_sgr_parameters(m: ScreenModel, k: u16, n: u16, rest: Seq<u16>)
    ensures
        m.after_sgr(seq![0u16], 0) == (ScreenModel { fg: 7, bg: 0, bold: false, ..m }),
        m.after_sgr(seq![1u16], 0) == (ScreenModel { bold: true, ..m }),
        30 <= k <= 37 ==> m.after_sgr(seq![k], 0) == (ScreenModel { fg: (k - 30) as u8, ..m }),
        m.after_sgr(seq![39u16], 0) == (ScreenModel { fg: 7, ..m }),
        40 <= k <= 47 ==> m.after_sgr(seq![k], 0) == (ScreenModel { bg: (k - 40) as u8, ..m }),
        m.after_sgr(seq![49u16], 0) == (ScreenModel { bg: 0, ..m }),
        m.after_sgr(seq![38u16, 5u16, n], 0) == (ScreenModel { fg: (n % 8) as u8, ..m }),
        m.after_sgr(seq![48u16, 5u16, n], 0) == (ScreenModel { bg: (n % 8) as u8, ..m }),
        !(k == 0 || k == 1 || 30 <= k <= 49) ==> m.after_sgr(seq![k], 0) == m,
        k != 38 && k != 48 ==> m.after_sgr(seq![k] + rest, 0) == m.after_sgr(seq![k], 0).after_sgr(
            rest,
            0,
        ),
{
    assert(m.after_sgr(seq![0u16], 0) == (ScreenModel { fg: 7, bg: 0, bold: false, ..m })) by {
        assert(seq![0u16][0] == 0u16);
        reveal_with_fuel(ScreenModel::after_sgr, 2);
    }
    assert(m.after_sgr(seq![1u16], 0) == (ScreenModel { bold: true, ..m })) by {
        assert(seq![1u16][0] == 1u16);
        reveal_with_fuel(ScreenModel::after_sgr, 2);
    }
    assert(30 <= k <= 37 ==> m.after_sgr(seq![k], 0) == (ScreenModel { fg: (k - 30) as u8, ..m }))
        by {
        assert(seq![k][0] == k);
        reveal_with_fuel(ScreenModel::after_sgr, 2);
    }
    assert(m.after_sgr(seq![39u16], 0) == (ScreenModel { fg: 7, ..m })) by {
        assert(seq![39u16][0] == 39u16);
        reveal_with_fuel(ScreenModel::after_sgr, 2);
    }
    assert(40 <= k <= 47 ==> m.after_sgr(seq![k], 0) == (ScreenModel { bg: (k - 40) as u8, ..m }))
        by {
        assert(seq![k][0] == k);
        reveal_with_fuel(ScreenModel::after_sgr, 2);
    }
    assert(m.after_sgr(seq![49u16], 0) == (ScreenModel { bg: 0, ..m })) by {
        assert(seq![49u16][0] == 49u16);
        reveal_with_fuel(ScreenModel::after_sgr, 2);
    }
    assert(m.after_sgr(seq![38u16, 5u16, n], 0) == (ScreenModel { fg: (n % 8) as u8, ..m })) by {
        let q = seq![38u16, 5u16, n];
        assert(q[0] == 38u16 && q[1] == 5u16 && q[2] == n);
        reveal_with_fuel(ScreenModel::after_sgr, 2);
    }
    assert(m.after_sgr(seq![48u16, 5u16, n], 0) == (ScreenModel { bg: (n % 8) as u8, ..m })) by {
        let q = seq![48u16, 5u16, n];
        assert(q[0] == 48u16 && q[1] == 5u16 && q[2] == n);
        reveal_with_fuel(ScreenModel::after_sgr, 2);
    }
    assert(!(k == 0 || k == 1 || 30 <= k <= 49) ==> m.after_sgr(seq![k], 0) == m) by {
        assert(seq![k][0] == k);
        reveal_with_fuel(ScreenModel::after_sgr, 2);
    }
    if k != 38 && k != 48 {
        let s = seq![k] + rest;
        assert(s[0] == k);
        assert(s.drop_first() =~= rest);
        assert(seq![k][0] == k);
        if k == 0 {
            lemma_sgr_shift(ScreenModel { fg: 7, bg: 0, bold: false, ..m }, s, 0);
        } else if k == 1 {
            lemma_sgr_shift(ScreenModel { bold: true, ..m }, s, 0);
        } else if 30 <= k <= 37 {
            lemma_sgr_shift(ScreenModel { fg: (k - 30) as u8, ..m }, s, 0);
        } else if k == 39 {
            lemma_sgr_shift(ScreenModel { fg: 7, ..m }, s, 0);
        } else if 40 <= k <= 47 {
            lemma_sgr_shift(ScreenModel { bg: (k - 40) as u8, ..m }, s, 0);
        } else if k == 49 {
            lemma_sgr_shift(ScreenModel { bg: 0, ..m }, s, 0);
        } else {
            lemma_sgr_shift(m, s, 0);
        }
        assert(m.after_sgr(s, 0) == m.after_sgr(seq![k], 0).after_sgr(rest, 0)) by {
            reveal_with_fuel(ScreenModel::after_sgr, 2);
        }
    }
}


/// CSI erase blanks exactly the cells of its region and changes nothing else: `J` with 0
/// erases from the cursor to the end of the screen, 1 from the start of the screen to the
/// cursor (also with no parameter, whose default is 1), 2 the whole screen; `K` does the
/// same within the cursor's line; any other parameter erases nothing. A blanked cell is a
/// space in the default colours (7 on 0) without bold.
pub proof fn lemma_csi_erase(m: ScreenModel, p: Seq<u16>, r: int, c: int)
    requires
        m.wf(),
        0 <= r < m.rows,
        0 <= c < m.cols,
    ensures
        ({
            let n: int = if p.len() > 0 {
                p[0] as int
            } else {
                1
            };
            let cr = m.cursor_row as int;
            let cc = m.cursor_col as int;
            let blank = Cell { ch: ' ', fg: 7, bg: 0, bold: false };
            let j = m.after_csi(p, 'J');
            let k = m.after_csi(p, 'K');
            let in_j = (n == 0 && (r > cr || (r == cr && c >= cc))) || (n == 1 && (r < cr || (r
                == cr && c <= cc))) || n == 2;
            let in_k = r == cr && ((n == 0 && c >= cc) || (n == 1 && c <= cc) || n == 2);
            &&& (ScreenModel { grid: m.grid, ..j }) == m
            &&& (ScreenModel { grid: m.grid, ..k }) == m
            &&& j.wf()
            &&& k.wf()
            &&& j.grid[r][c] == (if in_j {
                blank
            } else {
                m.grid[r][c]
            })
            &&& k.grid[r][c] == (if in_k {
                blank
            } else {
                m.grid[r][c]
            })
        }),
{
    let j = m.after_csi(p, 'J');
    let k = m.after_csi(p, 'K');
    assert(j.grid.len() == m.rows);
    assert(k.grid.len() == m.rows);
    assert forall|q: int| 0 <= q < j.rows implies (#[trigger] j.grid[q]).len() == j.cols by {}
    assert forall|q: int| 0 <= q < k.rows implies (#[trigger] k.grid[q]).len() == k.cols by {}
}


/// Printing a character writes it with the current attributes at the cursor and moves the
/// cursor one column right; past the last column it goes to the start of the next row, and
/// past the last row the screen scrolls up one row (a blank row comes in at the bottom) and
/// the cursor stays on the last row. Nothing else changes.
pub proof fn lemma_print_advances_cursor(m: ScreenModel, c: char)
    requires
        m.wf(),
        m.rows > 0,
        m.cols > 0,
    ensures
        ({
            let row = m.cursor_row as int;
            let col = m.cursor_col as int;
            let cell = Cell { ch: c, fg: m.fg, bg: m.bg, bold: m.bold };
            let written = m.grid.update(row, m.grid[row].update(col, cell));
            let blank = Seq::new(m.cols, |i: int| Cell { ch: ' ', fg: 7, bg: 0, bold: false });
            let after = m.with_char(c);
            &&& col + 1 < m.cols ==> after == (ScreenModel {
                grid: written,
                cursor_col: (col + 1) as nat,
                ..m
            })
            &&& col + 1 >= m.cols && row + 1 < m.rows ==> after == (ScreenModel {
                grid: written,
                cursor_row: (row + 1) as nat,
                cursor_col: 0,
                ..m
            })
            &&& col + 1 >= m.cols && row + 1 >= m.rows ==> after == (ScreenModel {
                grid: written.drop_first().push(blank),
                cursor_row: (m.rows - 1) as nat,
                cursor_col: 0,
                ..m
            })
        }),
{
    assert(blank_row(m.cols) =~= Seq::new(
        m.cols,
        |i: int| Cell { ch: ' ', fg: 7, bg: 0, bold: false },
    ));
}

/// The C0 control bytes move the cursor and change nothing else, except a line feed on the
/// last row, which scrolls: backspace moves one column left (not past the first), carriage
/// return to the first column, line feed (also VT and FF) one row down, tab to the next
/// multiple of 8 columns or, past the last column, to the start of the next line. Other
/// bytes change nothing. The ESC sequences `D` and `E` are a line feed (`E` from the first
/// column), `H` a tab, and `M` moves one row up or, on the first row, scrolls down.
pub proof fn lemma_control_bytes(m: ScreenModel, byte: u8)
    requires
        m.wf(),
        m.rows > 0,
        m.cols > 0,
    ensures
        ({
            let row = m.cursor_row as int;
            let col = m.cursor_col as int;
            let blank = Seq::new(m.cols, |i: int| Cell { ch: ' ', fg: 7, bg: 0, bold: false });
            let lf = if row + 1 < m.rows {
                ScreenModel { cursor_row: (row + 1) as nat, ..m }
            } else {
                ScreenModel { grid: m.grid.drop_first().push(blank), ..m }
            };
            let stop = (col + 8) / 8 * 8;
            let tab = if stop < m.cols {
                ScreenModel { cursor_col: stop as nat, ..m }
            } else {
                ScreenModel { cursor_col: 0, ..lf }
            };
            &&& m.after_control(0x08) == (ScreenModel {
                cursor_col: (if col > 0 {
                    col - 1
                } else {
                    0
                }) as nat,
                ..m
            })
            &&& m.after_control(0x0d) == (ScreenModel { cursor_col: 0, ..m })
            &&& m.after_control(0x0a) == lf
            &&& m.after_control(0x0b) == lf
            &&& m.after_control(0x0c) == lf
            &&& m.after_control(0x09) == tab
            &&& !(byte == 0x08 || byte == 0x09 || byte == 0x0a || byte == 0x0b || byte == 0x0c
                || byte == 0x0d) ==> m.after_control(byte) == m
            &&& m.after_esc(0x44) == lf
            &&& m.after_esc(0x45) == (ScreenModel { cursor_col: 0, ..lf })
            &&& m.after_esc(0x48) == tab
            &&& m.after_esc(0x4d) == (if row > 0 {
                ScreenModel { cursor_row: (row - 1) as nat, ..m }
            } else {
                ScreenModel { grid: seq![blank] + m.grid.drop_last(), ..m }
            })
        }),
{
    assert(blank_row(m.cols) =~= Seq::new(
        m.cols,
        |i: int| Cell { ch: ' ', fg: 7, bg: 0, bold: false },
    ));
}


/// Resizing keeps every cell that still fits where it was, fills the new cells with blanks,
/// moves the cursor back onto the grid when it falls off (to the last row or column), and
/// keeps the current attributes.
pub proof fn lemma_resize_keeps_what_fits(m: ScreenModel, rows: nat, cols: nat, r: int, c: int)
    requires
        m.wf(),
        rows <= isize::MAX,
        cols <= isize::MAX,
    ensures
        ({
            let n = m.resized(rows, cols);
            let blank = Cell { ch: ' ', fg: 7, bg: 0, bold: false };
            &&& n.wf()
            &&& n.rows == rows && n.cols == cols
            &&& n.fg == m.fg && n.bg == m.bg && n.bold == m.bold
            &&& n.cursor_row == (if m.cursor_row < rows {
                m.cursor_row as int
            } else if rows > 0 {
                rows - 1
            } else {
                0
            })
            &&& n.cursor_col == (if m.cursor_col < cols {
                m.cursor_col as int
            } else if cols > 0 {
                cols - 1
            } else {
                0
            })
            &&& 0 <= r < rows && 0 <= c < cols ==> n.grid[r][c] == (if r < m.rows && c < m.cols {
                m.grid[r][c]
            } else {
                blank
            })
        }),
{
    let n = m.resized(rows, cols);
    assert forall|q: int| 0 <= q < rows implies (#[trigger] n.grid[q]).len() == cols by {}
    if 0 <= r < rows && 0 <= c < cols {
        if r < m.rows {
            assert(m.grid[r].len() == m.cols);
        }
    }
}

} // verus!
