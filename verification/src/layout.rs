//! Screen layout: the welcome banner, where the grid and the AI box sit in the terminal,
//! which picker entries are visible, and the model label.

use vstd::prelude::*;
use vstd::string::StrSliceExecFns;
use crate::ai::AiBackend;
use crate::text::{
    chars_of, concat_str, lead_while, lemma_lead_while_is, utf8_len, utf8_width,
};

verus! {

// ---------------------------------------------------------------------------
// Lines
// ---------------------------------------------------------------------------

pub open spec fn not_newline() -> spec_fn(char) -> bool {
    |c: char| c != '\n'
}

pub open spec fn is_newline() -> spec_fn(char) -> bool {
    |c: char| c == '\n'
}

/// The lines of `s` (what `str::lines` yields): split at `\n`, a `\r` right before a
/// `\n` dropped, no line after a final `\n`.
pub open spec fn split_lines(s: Seq<char>) -> Seq<Seq<char>>
    decreases s.len(),
{
    if s.len() == 0 {
        Seq::empty()
    } else {
        let n = lead_while(s, not_newline()) as int;
        let line = if n < s.len() && n > 0 && s[n - 1] == '\r' {
            s.take(n - 1)
        } else {
            s.take(n)
        };
        if n < s.len() {
            seq![line] + split_lines(s.skip(n + 1))
        } else {
            seq![line]
        }
    }
}

pub open spec fn strs_view(v: Seq<&str>) -> Seq<Seq<char>> {
    v.map_values(|s: &str| s@)
}

proof fn lemma_lead_while_bounds(s: Seq<char>)
    ensures
        lead_while(s, not_newline()) <= s.len(),
    decreases s.len(),
{
    if s.len() > 0 && not_newline()(s[0]) {
        lemma_lead_while_bounds(s.drop_first());
    }
}

/// The lines of `text[from..]`.
fn lines_from<'a>(text: &'a str, v: &Vec<char>, from: usize) -> (r: Vec<&'a str>)
    requires
        v@ == text@,
        from <= v@.len(),
    ensures
        strs_view(r@) == split_lines(v@.skip(from as int)),
    decreases v@.len() - from,
{
    let ghost s = v@.skip(from as int);
    if from == v.len() {
        let r: Vec<&'a str> = Vec::new();
        assert(strs_view(r@) =~= split_lines(s));
        return r;
    }
    let mut e = from;
    while e < v.len() && v[e] != '\n'
        invariant
            from <= e <= v@.len(),
            forall|k: int| from <= k < e ==> #[trigger] v@[k] != '\n',
        decreases v@.len() - e,
    {
        e = e + 1;
    }
    proof {
        assert forall|k: int| 0 <= k < e - from implies not_newline()(#[trigger] s[k]) by {
            assert(s[k] == v@[from + k]);
        }
        if e < v.len() {
            assert(s[e - from] == v@[e as int]);
        }
        lemma_lead_while_is(s, not_newline(), e - from);
    }
    let end = if e < v.len() && e > from && v[e - 1] == '\r' {
        e - 1
    } else {
        e
    };
    proof {
        if e < v.len() && e > from {
            assert(s[e - from - 1] == v@[e - 1]);
        }
        assert(s.take(end - from) =~= v@.subrange(from as int, end as int));
    }
    let line = text.substring_char(from, end);
    let mut r: Vec<&'a str> = Vec::new();
    r.push(line);
    if e < v.len() {
        let rest = lines_from(text, v, e + 1);
        assert(s.skip(e - from + 1) =~= v@.skip(e + 1));
        let mut k: usize = 0;
        while k < rest.len()
            invariant
                k <= rest@.len(),
                r@.len() == k + 1,
                strs_view(r@) =~= seq![line@] + strs_view(rest@).take(k as int),
            decreases rest@.len() - k,
        {
            let ghost before = r@;
            r.push(rest[k]);
            assert(r@ == before.push(rest@[k as int]));
            assert(strs_view(r@) =~= strs_view(before).push(rest@[k as int]@));
            assert(strs_view(rest@).take(k + 1) =~= strs_view(rest@).take(k as int).push(
                rest@[k as int]@,
            ));
            assert(strs_view(r@) =~= seq![line@] + strs_view(rest@).take(k + 1));
            k = k + 1;
        }
        assert(strs_view(rest@).take(rest@.len() as int) =~= strs_view(rest@));
    } else {
        assert(strs_view(r@) =~= seq![line@]);
    }
    r
}

/// The lines of `text` after any leading newlines.
pub fn lines_after_leading_newlines<'a>(text: &'a str) -> (r: Vec<&'a str>)
    ensures
        strs_view(r@) == split_lines(text@.skip(lead_while(text@, is_newline()) as int)),
{
    let v = chars_of(text);
    let mut i: usize = 0;
    while i < v.len() && v[i] == '\n'
        invariant
            i <= v@.len(),
            forall|k: int| 0 <= k < i ==> #[trigger] v@[k] == '\n',
        decreases v@.len() - i,
    {
        i = i + 1;
    }
    proof {
        assert forall|k: int| 0 <= k < i implies is_newline()(#[trigger] v@[k]) by {}
        lemma_lead_while_is(v@, is_newline(), i as int);
    }
    lines_from(text, &v, i)
}

/// The welcome banner.
pub open spec fn welcome_art_text() -> Seq<char> {
    "\n  ██████╗ ██╗  ██╗ █████╗ ███╗   ███╗███████╗██╗     ███████╗ ██████╗ ███╗   ██╗\n ██╔════╝ ██║  ██║██╔══██╗████╗ ████║██╔════╝██║     ██╔════╝██╔═══██╗████╗  ██║\n ██║  ███╗███████║███████║██╔████╔██║█████╗  ██║     █████╗  ██║   ██║██╔██╗ ██║\n ██║   ██║██╔══██║██╔══██║██║╚██╔╝██║██╔══╝  ██║     ██╔══╝  ██║   ██║██║╚██╗██║\n ╚██████╔╝██║  ██║██║  ██║██║ ╚═╝ ██║███████╗███████╗███████╗╚██████╔╝██║ ╚████║\n  ╚═════╝ ╚═╝  ╚═╝╚═╝  ╚═╝╚═╝     ╚═╝╚══════╝╚══════╝╚══════╝ ╚═════╝ ╚═╝  ╚═══╝\n"@
}

/// The welcome banner.
pub fn welcome_art() -> (s: &'static str)
    ensures
        s@ == welcome_art_text(),
{
    "\n  ██████╗ ██╗  ██╗ █████╗ ███╗   ███╗███████╗██╗     ███████╗ ██████╗ ███╗   ██╗\n ██╔════╝ ██║  ██║██╔══██╗████╗ ████║██╔════╝██║     ██╔════╝██╔═══██╗████╗  ██║\n ██║  ███╗███████║███████║██╔████╔██║█████╗  ██║     █████╗  ██║   ██║██╔██╗ ██║\n ██║   ██║██╔══██║██╔══██║██║╚██╔╝██║██╔══╝  ██║     ██╔══╝  ██║   ██║██║╚██╗██║\n ╚██████╔╝██║  ██║██║  ██║██║ ╚═╝ ██║███████╗███████╗███████╗╚██████╔╝██║ ╚████║\n  ╚═════╝ ╚═╝  ╚═╝╚═╝  ╚═╝╚═╝     ╚═╝╚══════╝╚══════╝╚══════╝ ╚═════╝ ╚═╝  ╚═══╝\n"
}

/// The lines of the welcome banner.
pub fn art_lines() -> (r: Vec<&'static str>)
    ensures
        strs_view(r@) == split_lines(
            welcome_art_text().skip(lead_while(welcome_art_text(), is_newline()) as int),
        ),
{
    lines_after_leading_newlines(welcome_art())
}

/// `min(utf8_len(s), usize::MAX)`: the byte length of `s` (what `str::len` reports).
pub open spec fn byte_len(s: Seq<char>) -> nat {
    if utf8_len(s) <= usize::MAX {
        utf8_len(s)
    } else {
        usize::MAX as nat
    }
}

/// Byte length of `s`.
pub fn str_byte_len(s: &str) -> (n: usize)
    ensures
        n == byte_len(s@),
{
    let v = chars_of(s);
    let mut k: usize = 0;
    let mut n: usize = 0;
    while k < v.len()
        invariant
            k <= v@.len(),
            v@ == s@,
            n == byte_len(v@.take(k as int)),
        decreases v@.len() - k,
    {
        let w = utf8_width(v[k]);
        assert(v@.take(k + 1).drop_last() =~= v@.take(k as int));
        n = if n > usize::MAX - w {
            usize::MAX
        } else {
            n + w
        };
        k = k + 1;
    }
    assert(v@.take(v@.len() as int) =~= v@);
    n
}

/// The greatest byte length among `lines` (0 when there are none).
pub open spec fn widest(lines: Seq<Seq<char>>) -> nat
    decreases lines.len(),
{
    if lines.len() == 0 {
        0
    } else {
        let w = widest(lines.drop_last());
        let l = byte_len(lines.last());
        if l > w {
            l
        } else {
            w
        }
    }
}

/// Width of the banner: its longest line, in bytes.
pub fn art_width(lines: &Vec<&str>) -> (w: usize)
    ensures
        w == widest(strs_view(lines@)),
{
    let ghost views = strs_view(lines@);
    let mut w: usize = 0;
    let mut i: usize = 0;
    assert(views.take(0) =~= Seq::<Seq<char>>::empty());
    while i < lines.len()
        invariant
            i <= lines@.len(),
            views == strs_view(lines@),
            w == widest(views.take(i as int)),
        decreases lines.len() - i,
    {
        let l = str_byte_len(lines[i]);
        assert(views.take(i + 1).drop_last() =~= views.take(i as int));
        if l > w {
            w = l;
        }
        i = i + 1;
    }
    assert(views.take(lines@.len() as int) =~= views);
    w
}

// ---------------------------------------------------------------------------
// Placement
// ---------------------------------------------------------------------------

pub open spec fn sat_sub(a: int, b: int) -> int {
    if a >= b {
        a - b
    } else {
        0
    }
}

/// Column at which something `width` wide is centred in `total` columns.
pub fn centered_start(total: usize, width: usize) -> (s: usize)
    ensures
        s == sat_sub(total as int, width as int) / 2,
{
    (if total >= width {
        total - width
    } else {
        0
    }) / 2
}

/// Rows left for the shell's grid below a banner of `art_height` rows (at least one).
pub fn grid_rows_for(term_rows: usize, art_height: usize) -> (n: usize)
    ensures
        n == if sat_sub(term_rows as int, art_height as int) >= 1 {
            sat_sub(term_rows as int, art_height as int)
        } else {
            1
        },
{
    let n = if term_rows >= art_height {
        term_rows - art_height
    } else {
        0
    };
    if n >= 1 {
        n
    } else {
        1
    }
}

/// Grid row under terminal row `row` (rows of the banner map to the first grid row).
pub fn grid_row_of(row: u16, art_height: usize) -> (r: usize)
    ensures
        r == sat_sub(row as int, art_height as int),
{
    if row as usize >= art_height {
        row as usize - art_height
    } else {
        0
    }
}

/// The clicked cell moved onto a grid of `rows` × `cols`.
pub fn clamp_to_grid(row: usize, col: usize, rows: usize, cols: usize) -> (rc: (usize, usize))
    ensures
        rc.0 == if row <= sat_sub(rows as int, 1) {
            row as int
        } else {
            sat_sub(rows as int, 1)
        },
        rc.1 == if col <= sat_sub(cols as int, 1) {
            col as int
        } else {
            sat_sub(cols as int, 1)
        },
{
    let last_row = if rows == 0 {
        0
    } else {
        rows - 1
    };
    let last_col = if cols == 0 {
        0
    } else {
        cols - 1
    };
    (if row <= last_row {
        row
    } else {
        last_row
    }, if col <= last_col {
        col
    } else {
        last_col
    })
}

/// Where the AI box is drawn: its size and corner, the width inside its border, the rows
/// of its title, separator, two content lines and bottom border, and the columns of its
/// "Esc" mark and right border.
pub struct BoxGeometry {
    pub width: usize,
    pub height: usize,
    pub left: usize,
    pub top: usize,
    pub inner_width: usize,
    pub title_row: usize,
    pub separator_row: usize,
    pub first_line_row: usize,
    pub second_line_row: usize,
    pub bottom_row: usize,
    pub close_col: usize,
    pub right_col: usize,
}

/// The AI box: up to 64 × 8, leaving a margin of two, centred horizontally at the bottom.
pub fn ai_box_geometry(term_rows: usize, term_cols: usize) -> (g: BoxGeometry)
    ensures
        g.width == if sat_sub(term_cols as int, 2) < 64 {
            sat_sub(term_cols as int, 2)
        } else {
            64
        },
        g.height == if sat_sub(term_rows as int, 2) < 8 {
            sat_sub(term_rows as int, 2)
        } else {
            8
        },
        g.left == sat_sub(term_cols as int, g.width as int) / 2,
        g.top == sat_sub(term_rows as int, g.height as int),
        g.inner_width == sat_sub(g.width as int, 2),
        g.width <= term_cols && g.height <= term_rows,
        g.title_row == g.top + 1,
        g.separator_row == g.top + 2,
        g.first_line_row == g.top + 3,
        g.second_line_row == g.top + 4,
        g.bottom_row == sat_sub(g.top + g.height, 1),
        g.close_col == sat_sub(g.left + g.width, 6),
        g.right_col == sat_sub(g.left + g.width, 1),
{
    let cw = if term_cols >= 2 {
        term_cols - 2
    } else {
        0
    };
    let ch = if term_rows >= 2 {
        term_rows - 2
    } else {
        0
    };
    let width = if cw < 64 {
        cw
    } else {
        64
    };
    let height = if ch < 8 {
        ch
    } else {
        8
    };
    let left = (term_cols - width) / 2;
    let top = term_rows - height;
    let right_edge = left + width;
    BoxGeometry {
        width,
        height,
        left,
        top,
        inner_width: if width >= 2 {
            width - 2
        } else {
            0
        },
        title_row: top + 1,
        separator_row: top + 2,
        first_line_row: top + 3,
        second_line_row: top + 4,
        bottom_row: if top + height >= 1 {
            top + height - 1
        } else {
            0
        },
        close_col: if right_edge >= 6 {
            right_edge - 6
        } else {
            0
        },
        right_col: if right_edge >= 1 {
            right_edge - 1
        } else {
            0
        },
    }
}

/// Rows of a picker list shown at once.
pub open spec fn picker_rows() -> nat {
    3
}

/// The slice `[start, end)` of a picker list of `len` entries shown so that the
/// `selected` entry is visible.
pub open spec fn picker_window_spec(selected: nat, len: nat) -> (nat, nat) {
    let visible = if picker_rows() < len {
        picker_rows()
    } else {
        len
    };
    let back = sat_sub(selected as int, sat_sub(visible as int, 1));
    let start = if back <= sat_sub(len as int, visible as int) {
        back
    } else {
        sat_sub(len as int, visible as int)
    };
    let end = if start + visible <= len {
        start + visible
    } else {
        len as int
    };
    (start as nat, end as nat)
}

/// The entries of a picker shown: a window of up to three entries ending at the selected one.
pub fn picker_window(selected: usize, len: usize) -> (w: (usize, usize))
    ensures
        (w.0 as nat, w.1 as nat) == picker_window_spec(selected as nat, len as nat),
        w.0 <= w.1 <= len,
{
    let visible: usize = if 3 < len {
        3
    } else {
        len
    };
    let back = if selected >= (if visible >= 1 {
        visible - 1
    } else {
        0
    }) {
        selected - (if visible >= 1 {
            visible - 1
        } else {
            0
        })
    } else {
        0
    };
    let room = len - visible;
    let start = if back <= room {
        back
    } else {
        room
    };
    let end = if start + visible <= len {
        start + visible
    } else {
        len
    };
    (start, end)
}

/// The selected entry lies in the window shown, when it is an entry of the list, and the
/// window shows three entries, or all of them when there are fewer.
pub proof fn lemma_picker_window_shows_selected(selected: nat, len: nat)
    requires
        selected < len,
    ensures
        picker_window_spec(selected, len).0 <= selected < picker_window_spec(selected, len).1,
        picker_window_spec(selected, len).1 <= len,
        picker_window_spec(selected, len).1 - picker_window_spec(selected, len).0 == if len < 3 {
            len
        } else {
            3
        },
{
}

/// The status label of the current backend and model.
pub fn model_status_label(backend: AiBackend, model: &str) -> (s: String)
    ensures
        s@ == backend.display_name() + " \u{b7} "@ + model@,
{
    let mut s = concat_str(backend.name(), " \u{b7} ");
    s.append(model);
    s
}

} // verus!
