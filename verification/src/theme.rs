//! Theme colours read from the config file, the default config text, and the colours
//! cells are drawn in.

use vstd::prelude::*;
use crate::helpers::{hex_color, hex_text, lemma_hex_rejects, lemma_hex_round_trip, parse_hex};
use crate::screen::{lemma_sgr_parameters, ScreenModel};
use crate::text::{
    chars_of, split_words, strings_view, trim, trim_bounds, words,
};

verus! {

/// Colours and font size of the terminal (the opacity, a float, is kept by the front end).
#[derive(Clone, Copy, Debug)]
pub struct Theme {
    pub default_foreground: (u8, u8, u8),
    pub default_background: (u8, u8, u8),
    pub font_size: u8,
}

pub open spec fn default_fg() -> (u8, u8, u8) {
    (0xcc, 0xcc, 0xcc)
}

pub open spec fn default_bg() -> (u8, u8, u8) {
    (0x1e, 0x1e, 0x1e)
}

pub open spec fn default_theme() -> Theme {
    Theme { default_foreground: default_fg(), default_background: default_bg(), font_size: 14 }
}

impl Theme {
    pub fn standard() -> (t: Theme)
        ensures
            t == default_theme(),
    {
        Theme {
            default_foreground: (0xcc, 0xcc, 0xcc),
            default_background: (0x1e, 0x1e, 0x1e),
            font_size: 14,
        }
    }
}

impl Default for Theme {
    fn default() -> (t: Self)
        ensures
            t == default_theme(),
    {
        Theme::standard()
    }
}

/// The `[theme]` table of the config file (without the opacity); the font size is the
/// integer the file gives, before clamping.
pub struct ThemeSection {
    pub default_foreground: Option<String>,
    pub default_background: Option<String>,
    pub font_size: Option<i64>,
}

/// The colour an entry sets, or `current` when absent or not a colour.
pub open spec fn color_or(o: Option<String>, current: (u8, u8, u8)) -> (u8, u8, u8) {
    match o {
        Some(s) => match hex_color(s@) {
            Some(rgb) => rgb,
            None => current,
        },
        None => current,
    }
}

/// The font size `f` clamped to 6–72 points.
pub open spec fn clamp_font(f: i64) -> u8 {
    if f > 72 {
        72
    } else if f < 6 {
        6
    } else {
        f as u8
    }
}

/// A configured font size is clamped to 6–72 points: sizes in that range are kept, others
/// move to the nearer end.
pub proof fn lemma_font_size_clamped(f: i64)
    ensures
        6 <= clamp_font(f) <= 72,
        6 <= f <= 72 ==> clamp_font(f) == f,
        f < 6 ==> clamp_font(f) == 6,
        f > 72 ==> clamp_font(f) == 72,
{
}

fn color_from(o: &Option<String>, current: (u8, u8, u8)) -> (c: (u8, u8, u8))
    ensures
        c == color_or(*o, current),
{
    match o {
        Some(s) => match parse_hex(s.as_str()) {
            Some(rgb) => rgb,
            None => current,
        },
        None => current,
    }
}

/// The theme a config file's `[theme]` table gives (`None`: no file, unreadable,
/// unparsable, or no `[theme]` table).
pub fn theme_from_section(section: &Option<ThemeSection>) -> (t: Theme)
    ensures
        match section {
            None => t == default_theme(),
            Some(s) => {
                &&& t.default_foreground == color_or(s.default_foreground, default_fg())
                &&& t.default_background == color_or(s.default_background, default_bg())
                &&& t.font_size == match s.font_size {
                    Some(f) => clamp_font(f),
                    None => 14u8,
                }
            },
        },
{
    let mut theme = Theme::standard();
    match section {
        None => theme,
        Some(s) => {
            theme.default_foreground = color_from(&s.default_foreground, theme.default_foreground);
            theme.default_background = color_from(&s.default_background, theme.default_background);
            match s.font_size {
                Some(f) => {
                    theme.font_size = if f > 72 {
                        72
                    } else if f < 6 {
                        6
                    } else {
                        f as u8
                    };
                },
                None => {},
            }
            theme
        },
    }
}

// ---------------------------------------------------------------------------
// Config file text
// ---------------------------------------------------------------------------

/// Default config content written when the file does not exist.
pub fn default_config() -> (s: &'static str)
    ensures
        s@ == default_config_text(),
{
    "# Chameleon theme \u{2014} edit and save; press Ctrl+Shift+T to reopen this file.\n[theme]\ndefault_foreground = \"#cccccc\"\ndefault_background = \"#1e1e1e\"\nbackground_opacity = 0.95\nfont_size = 14\n"
}

pub open spec fn default_config_text() -> Seq<char> {
    "# Chameleon theme \u{2014} edit and save; press Ctrl+Shift+T to reopen this file.\n[theme]\ndefault_foreground = \"#cccccc\"\ndefault_background = \"#1e1e1e\"\nbackground_opacity = 0.95\nfont_size = 14\n"@
}

/// The file holds nothing but whitespace.
pub fn config_is_blank(contents: &str) -> (b: bool)
    ensures
        b == (trim(contents@).len() == 0),
{
    let v = chars_of(contents);
    let (a, b) = trim_bounds(&v, 0, v.len());
    assert(v@.subrange(0, v@.len() as int) =~= v@);
    a == b
}

/// The config text to add an API key to: the file's contents, or the default config
/// when the file is blank.
pub fn config_base_text(contents: &str) -> (s: String)
    ensures
        s@ == if trim(contents@).len() == 0 {
            default_config_text()
        } else {
            contents@
        },
{
    if config_is_blank(contents) {
        default_config().to_owned()
    } else {
        contents.to_owned()
    }
}

/// The program and arguments that open a file for editing: the words of the editor
/// setting, or `nano` with no arguments when it has none.
pub open spec fn editor_command_spec(editor: Seq<char>) -> (Seq<char>, Seq<Seq<char>>) {
    let ws = words(editor);
    if ws.len() == 0 {
        ("nano"@, Seq::empty())
    } else {
        (ws[0], ws.drop_first())
    }
}

/// Splits the editor setting (`$EDITOR`, else `$VISUAL`, else `nano`) into the program
/// and its arguments.
pub fn editor_command(editor: &str) -> (r: (String, Vec<String>))
    ensures
        (r.0@, strings_view(r.1@)) == editor_command_spec(editor@),
{
    let mut ws = split_words(editor);
    if ws.len() == 0 {
        ("nano".to_owned(), ws)
    } else {
        let ghost all = ws@;
        let bin = ws.remove(0);
        assert(strings_view(ws@) =~= strings_view(all).drop_first());
        (bin, ws)
    }
}

// ---------------------------------------------------------------------------
// Cell colours
// ---------------------------------------------------------------------------

/// Colours the screen is drawn with.
#[derive(Clone, Copy, Debug, PartialEq, Eq, Structural)]
pub enum TermColor {
    Black,
    DarkRed,
    DarkGreen,
    DarkYellow,
    DarkBlue,
    DarkMagenta,
    DarkCyan,
    Grey,
    Rgb(u8, u8, u8),
}

pub open spec fn rgb_of(c: (u8, u8, u8)) -> TermColor {
    TermColor::Rgb(c.0, c.1, c.2)
}

/// The dark colours 1 to 6 of the standard palette.
pub open spec fn palette(i: u8) -> TermColor {
    if i == 1 {
        TermColor::DarkRed
    } else if i == 2 {
        TermColor::DarkGreen
    } else if i == 3 {
        TermColor::DarkYellow
    } else if i == 4 {
        TermColor::DarkBlue
    } else if i == 5 {
        TermColor::DarkMagenta
    } else {
        TermColor::DarkCyan
    }
}

fn palette_color(i: u8) -> (c: TermColor)
    ensures
        c == palette(i),
{
    if i == 1 {
        TermColor::DarkRed
    } else if i == 2 {
        TermColor::DarkGreen
    } else if i == 3 {
        TermColor::DarkYellow
    } else if i == 4 {
        TermColor::DarkBlue
    } else if i == 5 {
        TermColor::DarkMagenta
    } else {
        TermColor::DarkCyan
    }
}

/// Foreground of a cell: black, the dark colours, or the theme's text colour (7 and above).
pub fn cell_fg_color(fg: u8, theme: &Theme) -> (c: TermColor)
    ensures
        c == if fg == 0 {
            TermColor::Black
        } else if fg <= 6 {
            palette(fg)
        } else {
            rgb_of(theme.default_foreground)
        },
{
    if fg == 0 {
        TermColor::Black
    } else if fg <= 6 {
        palette_color(fg)
    } else {
        let (r, g, b) = theme.default_foreground;
        TermColor::Rgb(r, g, b)
    }
}

/// Background of a cell: the theme's background (0 and above 7), the dark colours, or grey.
pub fn cell_bg_color(bg: u8, theme: &Theme) -> (c: TermColor)
    ensures
        c == if 1 <= bg <= 6 {
            palette(bg)
        } else if bg == 7 {
            TermColor::Grey
        } else {
            rgb_of(theme.default_background)
        },
{
    if 1 <= bg && bg <= 6 {
        palette_color(bg)
    } else if bg == 7 {
        TermColor::Grey
    } else {
        let (r, g, b) = theme.default_background;
        TermColor::Rgb(r, g, b)
    }
}


/// The ANSI colours 1 to 6 in their order: red, green, yellow, blue, magenta, cyan.
pub open spec fn ansi_dark_colours() -> Seq<TermColor> {
    seq![
        TermColor::DarkRed,
        TermColor::DarkGreen,
        TermColor::DarkYellow,
        TermColor::DarkBlue,
        TermColor::DarkMagenta,
        TermColor::DarkCyan,
    ]
}

/// Colour `k` from 1 to 6 is drawn as the `k`-th ANSI colour, foreground and background
/// alike; so text written after `ESC[3km` is drawn in that colour, and so is the background
/// set by `ESC[4km`.
pub proof fn lemma_palette_ansi_order(m: ScreenModel, k: u8)
    requires
        1 <= k <= 6,
    ensures
        palette(k) == ansi_dark_colours()[k - 1],
        palette(m.after_sgr(seq![(30 + k) as u16], 0).fg) == ansi_dark_colours()[k - 1],
        palette(m.after_sgr(seq![(40 + k) as u16], 0).bg) == ansi_dark_colours()[k - 1],
{
    lemma_sgr_parameters(m, (30 + k) as u16, 0, Seq::empty());
    lemma_sgr_parameters(m, (40 + k) as u16, 0, Seq::empty());
}


/// A theme colour entry written `#rrggbb` or `rrggbb` (hex digits in either case) sets that
/// colour; an absent entry, or one of any other length, keeps the colour it had.
pub proof fn lemma_theme_colour_entry(
    entry: String,
    current: (u8, u8, u8),
    r: u8,
    g: u8,
    b: u8,
    upper: bool,
    hash: bool,
)
    ensures
        entry@ == (if hash {
            seq!['#']
        } else {
            Seq::empty()
        }) + hex_text(r, upper) + hex_text(g, upper) + hex_text(b, upper) ==> color_or(
            Some(entry),
            current,
        ) == (r, g, b),
        entry@.len() != 6 && !(entry@.len() == 7 && entry@[0] == '#') ==> color_or(
            Some(entry),
            current,
        ) == current,
        color_or(None, current) == current,
{
    lemma_hex_round_trip(r, g, b, upper, hash);
    lemma_hex_rejects(entry@);
}

} // verus!
