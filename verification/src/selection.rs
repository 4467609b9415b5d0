//! Stream selection over the screen (for copy): ordering, membership, extraction of the
//! selected text, and word / line selection for double and triple clicks.

use vstd::prelude::*;
use crate::screen::{row_chars, sat_dec, Screen, ScreenModel};
use crate::text::{
    is_ws, join_lines, lemma_trail_while, push_joined_line, skip_ws_backward, string_of_range,
    trail_while, trim_end, ws_pred,
};

verus! {

/// Stream selection (traditional terminal): start and end position in reading order (row-major).
/// Selecting from (1,5) to (2,3) selects end of line 1 + start of line 2, not a rectangle.
#[derive(Clone, Copy, Debug, Default, PartialEq, Eq, Structural)]
pub struct Selection {
    pub start_row: usize,
    pub start_col: usize,
    pub end_row: usize,
    pub end_col: usize,
}

/// `(r1, c1)` is before or equal to `(r2, c2)` in reading order.
pub open spec fn before_or_at(r1: int, c1: int, r2: int, c2: int) -> bool {
    r1 < r2 || (r1 == r2 && c1 <= c2)
}

impl Selection {
    /// Start and end in reading order.
    pub open spec fn spec_normalized(self) -> (usize, usize, usize, usize) {
        if before_or_at(
            self.start_row as int,
            self.start_col as int,
            self.end_row as int,
            self.end_col as int,
        ) {
            (self.start_row, self.start_col, self.end_row, self.end_col)
        } else {
            (self.end_row, self.end_col, self.start_row, self.start_col)
        }
    }

    /// Cell `(r, c)` lies between the two ends, inclusive, in reading order.
    pub open spec fn spec_contains(self, r: int, c: int) -> bool {
        let (r1, c1, r2, c2) = self.spec_normalized();
        before_or_at(r1 as int, c1 as int, r, c) && before_or_at(r, c, r2 as int, c2 as int)
    }

    pub fn is_empty(&self) -> (b: bool)
        ensures
            b == (self.start_row == self.end_row && self.start_col == self.end_col),
    {
        self.start_row == self.end_row && self.start_col == self.end_col
    }

    /// True if (r1, c1) is before or equal to (r2, c2) in stream (reading) order.
    pub fn stream_order_before(r1: usize, c1: usize, r2: usize, c2: usize) -> (b: bool)
        ensures
            b == before_or_at(r1 as int, c1 as int, r2 as int, c2 as int),
    {
        r1 < r2 || (r1 == r2 && c1 <= c2)
    }

    /// Normalize to (first_row, first_col, last_row, last_col) in stream order.
    pub fn normalized(&self) -> (r: (usize, usize, usize, usize))
        ensures
            r == self.spec_normalized(),
    {
        if Self::stream_order_before(self.start_row, self.start_col, self.end_row, self.end_col) {
            (self.start_row, self.start_col, self.end_row, self.end_col)
        } else {
            (self.end_row, self.end_col, self.start_row, self.start_col)
        }
    }

    /// True if cell (r, c) is inside the stream selection [first..=last].
    pub fn contains_cell(&self, r: usize, c: usize) -> (b: bool)
        ensures
            b == self.spec_contains(r as int, c as int),
    {
        let (r1, c1, r2, c2) = self.normalized();
        let after_start = r > r1 || (r == r1 && c >= c1);
        let before_end = r < r2 || (r == r2 && c <= c2);
        after_start && before_end
    }

    /// Copying would index an empty row: the screen has no columns and a selected row
    /// on the grid starts at column 0.
    pub open spec fn extract_panics(self, m: ScreenModel) -> bool {
        let (r1, c1, r2, c2) = self.spec_normalized();
        m.cols == 0 && ((r1 < m.grid.len() && c1 == 0) || (r1 < r2 && r1 + 1 < m.grid.len()))
    }

    /// Selected characters of row `r` (between columns `from` and `to`, inclusive).
    pub open spec fn row_segment(m: ScreenModel, r: int, from: nat, to: nat) -> Seq<char> {
        if 0 <= r < m.grid.len() {
            let last = if to <= sat_dec(m.grid[r].len()) {
                to
            } else {
                sat_dec(m.grid[r].len())
            };
            if from <= last {
                row_chars(m.grid[r]).subrange(from as int, last + 1int)
            } else {
                Seq::empty()
            }
        } else {
            Seq::empty()
        }
    }

    /// The selected text: each selected row's characters without trailing whitespace,
    /// joined by newlines.
    pub open spec fn extracted(self, m: ScreenModel) -> Seq<char> {
        let (r1, c1, r2, c2) = self.spec_normalized();
        join_lines(
            Seq::new(
                (r2 - r1 + 1) as nat,
                |i: int|
                    trim_end(
                        Self::row_segment(
                            m,
                            r1 + i,
                            if i == 0 {
                                c1 as nat
                            } else {
                                0
                            },
                            if r1 + i == r2 {
                                c2 as nat
                            } else {
                                sat_dec(m.cols)
                            },
                        ),
                    ),
            ),
        )
    }

    /// Cell `(r, c)` is drawn highlighted: there is a non-empty selection holding it.
    pub fn highlights(sel: Option<&Selection>, r: usize, c: usize) -> (b: bool)
        ensures
            b == match sel {
                Some(s) => !(s.start_row == s.end_row && s.start_col == s.end_col) && s.spec_contains(
                    r as int,
                    c as int,
                ),
                None => false,
            },
    {
        match sel {
            Some(s) => !s.is_empty() && s.contains_cell(r, c),
            None => false,
        }
    }

    /// Copying this selection from `screen` would index an empty row.
    pub fn extract_would_panic(&self, screen: &Screen) -> (b: bool)
        ensures
            b == self.extract_panics(screen@),
    {
        let (r1, c1, r2, _c2) = self.normalized();
        let n = screen.grid_len();
        screen.cols() == 0 && ((r1 < n && c1 == 0) || (r1 < r2 && r1 < n && r1 + 1 < n))
    }

    /// Extract selected text in reading order (like traditional terminal copy).
    pub fn extract_from(&self, screen: &Screen) -> (text: String)
        requires
            screen@.wf(),
            !self.extract_panics(screen@),
        ensures
            text@ == self.extracted(screen@),
    {
        let (r1, c1, r2, c2) = self.normalized();
        let ghost m = screen@;
        let ghost lines = Seq::new(
            (r2 - r1 + 1) as nat,
            |i: int|
                trim_end(
                    Self::row_segment(
                        m,
                        r1 + i,
                        if i == 0 {
                            c1 as nat
                        } else {
                            0
                        },
                        if r1 + i == r2 {
                            c2 as nat
                        } else {
                            sat_dec(m.cols)
                        },
                    ),
                ),
        );
        let cols = screen.cols();
        let last_col = if cols == 0 {
            0
        } else {
            cols - 1
        };
        let mut out = String::new();
        let mut r = r1;
        assert(lines.take(0) =~= Seq::<Seq<char>>::empty());
        loop
            invariant_except_break
                out@ == join_lines(lines.take(r - r1)),
            invariant
                m == screen@,
                m.wf(),
                !self.extract_panics(m),
                (r1, c1, r2, c2) == self.spec_normalized(),
                r1 <= r <= r2,
                last_col == sat_dec(m.cols),
                lines.len() == r2 - r1 + 1,
                forall|i: int|
                    0 <= i < lines.len() ==> #[trigger] lines[i] == trim_end(
                        Self::row_segment(
                            m,
                            r1 + i,
                            if i == 0 {
                                c1 as nat
                            } else {
                                0
                            },
                            if r1 + i == r2 {
                                c2 as nat
                            } else {
                                sat_dec(m.cols)
                            },
                        ),
                    ),
            ensures
                out@ == join_lines(lines.take(r2 - r1 + 1)),
            decreases r2 - r,
        {
            let start_c = if r == r1 {
                c1
            } else {
                0
            };
            let end_c = if r == r2 {
                c2
            } else {
                last_col
            };
            let mut chars: Vec<char> = Vec::new();
            if r < screen.grid_len() {
                let len = screen.row_len(r);
                let row_last = if len == 0 {
                    0
                } else {
                    len - 1
                };
                let last = if end_c <= row_last {
                    end_c
                } else {
                    row_last
                };
                if start_c <= last {
                    proof {
                        if len == 0 {
                            assert(m.grid[r as int].len() == m.cols);
                            assert(r == r1 || r1 < r2);
                        }
                    }
                    let mut c = start_c;
                    loop
                        invariant_except_break
                            chars@ == row_chars(m.grid[r as int]).subrange(
                                start_c as int,
                                c as int,
                            ),
                        invariant
                            m == screen@,
                            r < m.grid.len(),
                            start_c <= c <= last < m.grid[r as int].len(),
                        ensures
                            chars@ == row_chars(m.grid[r as int]).subrange(
                                start_c as int,
                                last + 1,
                            ),
                        decreases last - c,
                    {
                        chars.push(screen.cell(r, c).ch);
                        assert(chars@ =~= row_chars(m.grid[r as int]).subrange(
                            start_c as int,
                            c + 1,
                        ));
                        if c == last {
                            break;
                        }
                        c = c + 1;
                    }
                    assert(chars@ == Self::row_segment(m, r as int, start_c as nat, end_c as nat));
                } else {
                    assert(chars@ =~= Self::row_segment(
                        m,
                        r as int,
                        start_c as nat,
                        end_c as nat,
                    ));
                }
            } else {
                assert(chars@ =~= Self::row_segment(m, r as int, start_c as nat, end_c as nat));
            }
            let e = skip_ws_backward(&chars, 0, chars.len());
            assert(chars@.subrange(0, chars@.len() as int) =~= chars@);
            let line = string_of_range(&chars, 0, e);
            assert(line@ == lines[r - r1]);
            push_joined_line(&mut out, r - r1, &line, Ghost(lines));
            if r == r2 {
                break;
            }
            r = r + 1;
        }
        assert(lines.take(r2 - r1 + 1) =~= lines);
        out
    }
}

/// Selecting from `a` to `b` or from `b` to `a` covers the same cells.
pub proof fn lemma_selection_symmetric(s: Selection, r: int, c: int)
    ensures
        s.spec_contains(r, c) == (Selection {
            start_row: s.end_row,
            start_col: s.end_col,
            end_row: s.start_row,
            end_col: s.start_col,
        }).spec_contains(r, c),
{
}

/// Both ends of a selection are inside it.
pub proof fn lemma_selection_contains_ends(s: Selection)
    ensures
        s.spec_contains(s.start_row as int, s.start_col as int),
        s.spec_contains(s.end_row as int, s.end_col as int),
{
}

/// Copying a selection within one row gives exactly the selected cells' characters with
/// trailing whitespace removed: the text is a prefix of the selected characters (leading
/// blanks stay), everything cut off after it is whitespace, and it does not end in whitespace.
pub proof fn lemma_single_row_copy(s: Selection, m: ScreenModel)
    requires
        m.wf(),
        s.start_row == s.end_row,
        s.start_col <= s.end_col,
        s.end_row < m.rows,
        s.end_col < m.cols,
    ensures
        ({
            let seg = row_chars(m.grid[s.start_row as int]).subrange(
                s.start_col as int,
                s.end_col + 1int,
            );
            let t = s.extracted(m);
            &&& t.len() <= seg.len()
            &&& t == seg.take(t.len() as int)
            &&& forall|j: int| t.len() <= j < seg.len() ==> is_ws(#[trigger] seg[j])
            &&& t.len() > 0 ==> !is_ws(t.last())
        }),
{
    let r = s.start_row as int;
    let seg = row_chars(m.grid[r]).subrange(s.start_col as int, s.end_col + 1int);
    assert(m.grid[r].len() == m.cols);
    assert(Selection::row_segment(m, r, s.start_col as nat, s.end_col as nat) == seg);
    let lines = Seq::new(
        1,
        |i: int|
            trim_end(
                Selection::row_segment(
                    m,
                    r + i,
                    if i == 0 {
                        s.start_col as nat
                    } else {
                        0
                    },
                    if r + i == s.end_row {
                        s.end_col as nat
                    } else {
                        sat_dec(m.cols)
                    },
                ),
            ),
    );
    assert(s.extracted(m) == join_lines(lines));
    assert(lines[0] == trim_end(seg));
    assert(join_lines(lines) == lines[0]);
    lemma_trail_while(seg, ws_pred());
    let t = trim_end(seg);
    assert forall|j: int| t.len() <= j < seg.len() implies is_ws(#[trigger] seg[j]) by {
        assert(ws_pred()(seg[j]));
    }
    if t.len() > 0 {
        assert(t.last() == seg[seg.len() - trail_while(seg, ws_pred()) - 1]);
        assert(!ws_pred()(t.last()));
    }
    assert(t =~= seg.take(t.len() as int));
}

proof fn lemma_join_lines_front(lines: Seq<Seq<char>>)
    requires
        lines.len() >= 2,
    ensures
        join_lines(lines) == lines[0] + seq!['\n'] + join_lines(lines.drop_first()),
    decreases lines.len(),
{
    let rest = lines.drop_first();
    if lines.len() == 2 {
        assert(lines.drop_last().len() == 1);
        assert(rest.len() == 1);
        assert(join_lines(lines.drop_last()) == lines[0]);
        assert(join_lines(rest) == lines[1]);
    } else {
        lemma_join_lines_front(lines.drop_last());
        assert(lines.drop_last().drop_first() =~= rest.drop_last());
        assert(rest.last() == lines.last());
        assert(lines.drop_last()[0] == lines[0]);
        assert(join_lines(lines) =~= lines[0] + seq!['\n'] + join_lines(rest));
    }
}

/// Copying a selection over several rows gives the copy of its first row, from the start
/// column to the end of the row, then a newline, then the copy of the rest of the selection
/// from the start of the next row.
pub proof fn lemma_multi_row_copy(s: Selection, m: ScreenModel)
    requires
        m.wf(),
        s.start_row < s.end_row,
        s.end_row < m.rows,
        s.start_col < m.cols,
        s.end_col < m.cols,
    ensures
        s.extracted(m) == (Selection {
            start_row: s.start_row,
            start_col: s.start_col,
            end_row: s.start_row,
            end_col: (m.cols - 1) as usize,
        }).extracted(m) + seq!['\n'] + (Selection {
            start_row: (s.start_row + 1) as usize,
            start_col: 0,
            end_row: s.end_row,
            end_col: s.end_col,
        }).extracted(m),
{
    let first = Selection {
        start_row: s.start_row,
        start_col: s.start_col,
        end_row: s.start_row,
        end_col: (m.cols - 1) as usize,
    };
    let rest = Selection {
        start_row: (s.start_row + 1) as usize,
        start_col: 0,
        end_row: s.end_row,
        end_col: s.end_col,
    };
    let r1 = s.start_row as int;
    let r2 = s.end_row as int;
    let c1 = s.start_col as nat;
    let c2 = s.end_col as nat;
    let lines = Seq::new(
        (r2 - r1 + 1) as nat,
        |i: int|
            trim_end(
                Selection::row_segment(
                    m,
                    r1 + i,
                    if i == 0 {
                        c1
                    } else {
                        0
                    },
                    if r1 + i == r2 {
                        c2
                    } else {
                        sat_dec(m.cols)
                    },
                ),
            ),
    );
    assert(s.extracted(m) == join_lines(lines));
    let first_lines = Seq::new(
        1,
        |i: int|
            trim_end(
                Selection::row_segment(
                    m,
                    r1 + i,
                    if i == 0 {
                        c1
                    } else {
                        0
                    },
                    if r1 + i == r1 {
                        (m.cols - 1) as usize as nat
                    } else {
                        sat_dec(m.cols)
                    },
                ),
            ),
    );
    assert(first.extracted(m) == join_lines(first_lines));
    assert(join_lines(first_lines) == first_lines[0]);
    assert(first_lines[0] == lines[0]);
    let rest_lines = Seq::new(
        (r2 - (r1 + 1) + 1) as nat,
        |i: int|
            trim_end(
                Selection::row_segment(
                    m,
                    r1 + 1 + i,
                    if i == 0 {
                        0nat
                    } else {
                        0
                    },
                    if r1 + 1 + i == r2 {
                        c2
                    } else {
                        sat_dec(m.cols)
                    },
                ),
            ),
    );
    assert(rest.extracted(m) == join_lines(rest_lines));
    assert(rest_lines =~= lines.drop_first());
    lemma_join_lines_front(lines);
}

// ---------------------------------------------------------------------------
// Word and line selection
// ---------------------------------------------------------------------------

/// Whether `char::is_alphabetic` holds of `c` (the Unicode `Alphabetic` property).
pub uninterp spec fn char_is_alphabetic(c: char) -> bool;

/// Calls `char::is_alphabetic`. Trusted: the answer is `char_is_alphabetic(c)`, and among
/// ASCII characters exactly the letters `A`–`Z` and `a`–`z` have the Alphabetic property;
/// the Unicode table beyond ASCII is not stated.
#[verifier::external_body]
fn is_alphabetic(c: char) -> (b: bool)
    ensures
        b == char_is_alphabetic(c),
        (c as u32) < 0x80 ==> (b <==> ('a' <= c <= 'z' || 'A' <= c <= 'Z')),
{
    c.is_alphabetic()
}

/// Letters (Unicode alphabetic), ASCII digits and underscore.
pub open spec fn word_char(ch: char) -> bool {
    char_is_alphabetic(ch) || ('0' <= ch && ch <= '9') || ch == '_'
}

/// True if the character is part of a "word" for double-click selection (alphanumeric + underscore).
pub fn is_word_char(ch: char) -> (b: bool)
    ensures
        b == word_char(ch),
        (ch as u32) < 0x80 ==> (b <==> ('a' <= ch <= 'z' || 'A' <= ch <= 'Z' || '0' <= ch <= '9'
            || ch == '_')),
{
    is_alphabetic(ch) || ('0' <= ch && ch <= '9') || ch == '_'
}

/// The run of word characters around column `col` of row `row` (or just that cell when it
/// is off the grid or not a word character).
pub open spec fn word_span(m: ScreenModel, row: int, col: int, r: (usize, usize, usize, usize)) -> bool {
    if row < 0 || row >= m.grid.len() || col < 0 || col >= m.grid[row].len() || !word_char(
        m.grid[row][col].ch,
    ) {
        r == (row as usize, col as usize, row as usize, col as usize)
    } else {
        let line = m.grid[row];
        &&& r.0 == row && r.2 == row
        &&& r.1 <= col <= r.3 < line.len()
        &&& forall|k: int| r.1 <= k <= r.3 ==> word_char(#[trigger] line[k].ch)
        &&& r.1 == 0 || !word_char(line[r.1 - 1].ch)
        &&& r.3 + 1 == line.len() || !word_char(line[r.3 + 1].ch)
    }
}

/// Word at (row, col) in stream order: (start_row, start_col, end_row, end_col).
pub fn selection_word_at(screen: &Screen, row: usize, col: usize) -> (r: (usize, usize, usize, usize))
    ensures
        word_span(screen@, row as int, col as int, r),
{
    if row >= screen.grid_len() {
        return (row, col, row, col);
    }
    let len = screen.row_len(row);
    if col >= len {
        return (row, col, row, col);
    }
    if !is_word_char(screen.cell(row, col).ch) {
        return (row, col, row, col);
    }
    let ghost line = screen@.grid[row as int];
    let mut start_col = col;
    while start_col > 0 && is_word_char(screen.cell(row, start_col - 1).ch)
        invariant
            row < screen@.grid.len(),
            line == screen@.grid[row as int],
            len == line.len(),
            start_col <= col < len,
            forall|k: int| start_col <= k <= col ==> word_char(#[trigger] line[k].ch),
        decreases start_col,
    {
        start_col = start_col - 1;
    }
    let mut end_col = col;
    while end_col + 1 < len && is_word_char(screen.cell(row, end_col + 1).ch)
        invariant
            row < screen@.grid.len(),
            line == screen@.grid[row as int],
            len == line.len(),
            col <= end_col < len,
            forall|k: int| col <= k <= end_col ==> word_char(#[trigger] line[k].ch),
        decreases len - end_col,
    {
        end_col = end_col + 1;
    }
    (row, start_col, row, end_col)
}

/// Full line at row in stream order: (start_row, start_col, end_row, end_col).
pub fn selection_line_at(screen: &Screen, row: usize) -> (r: (usize, usize, usize, usize))
    ensures
        r == (row, 0usize, row, if row < screen@.grid.len() {
            sat_dec(screen@.grid[row as int].len()) as usize
        } else {
            0usize
        }),
{
    let end_col = if row < screen.grid_len() {
        let len = screen.row_len(row);
        if len == 0 {
            0
        } else {
            len - 1
        }
    } else {
        0
    };
    (row, 0, row, end_col)
}

// ---------------------------------------------------------------------------
// Mouse clicks
// ---------------------------------------------------------------------------

/// Clicks counted on the same cell: a click on the cell of the last click soon after it
/// counts one more (up to a triple click); otherwise it is a single click.
pub fn next_click_count(last: Option<(usize, usize, u8)>, r: usize, c: usize, soon: bool) -> (n: u8)
    ensures
        n == match last {
            Some((lr, lc, k)) => if lr == r && lc == c && soon {
                if k < 3 {
                    (k + 1) as u8
                } else {
                    3u8
                }
            } else {
                1u8
            },
            None => 1u8,
        },
{
    match last {
        Some((lr, lc, k)) => {
            if lr == r && lc == c && soon {
                if k < 3 {
                    k + 1
                } else {
                    3
                }
            } else {
                1
            }
        },
        None => 1,
    }
}

/// The selection a click makes: the line on a triple click, the word on a double click,
/// the clicked cell otherwise.
pub fn selection_for_click(screen: &Screen, r: usize, c: usize, click_count: u8) -> (s: Selection)
    ensures
        click_count == 3 ==> (s.start_row, s.start_col, s.end_row, s.end_col) == (r, 0usize, r, if r
            < screen@.grid.len() {
            sat_dec(screen@.grid[r as int].len()) as usize
        } else {
            0usize
        }),
        click_count == 2 ==> word_span(
            screen@,
            r as int,
            c as int,
            (s.start_row, s.start_col, s.end_row, s.end_col),
        ),
        click_count != 2 && click_count != 3 ==> s == (Selection {
            start_row: r,
            start_col: c,
            end_row: r,
            end_col: c,
        }),
{
    if click_count == 3 {
        let (r1, c1, r2, c2) = selection_line_at(screen, r);
        Selection { start_row: r1, start_col: c1, end_row: r2, end_col: c2 }
    } else if click_count == 2 {
        let (r1, c1, r2, c2) = selection_word_at(screen, r, c);
        Selection { start_row: r1, start_col: c1, end_row: r2, end_col: c2 }
    } else {
        Selection { start_row: r, start_col: c, end_row: r, end_col: c }
    }
}

} // verus!
