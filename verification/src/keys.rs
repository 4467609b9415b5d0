//! The bytes a key press sends to the shell.

use vstd::prelude::*;
use crate::screen::ScreenModel;
use crate::text::chars_of;

verus! {

/// A key, as far as the shell input cares.
#[derive(Clone, Copy, Debug, PartialEq, Eq, Structural)]
pub enum Key {
    Char(char),
    Enter,
    BackTab,
    Backspace,
    Tab,
    Esc,
    Up,
    Down,
    Right,
    Left,
    Home,
    End,
    PageUp,
    PageDown,
    Delete,
    Insert,
    /// Any other key (function keys, media keys, ...): sends nothing.
    Other,
}

/// The low byte of a character's code (`c as u8`).
pub open spec fn low_byte(c: char) -> u8 {
    ((c as u32) % 256) as u8
}

/// The bytes sent for `key`, with Control held when `ctrl`.
pub open spec fn key_bytes(key: Key, ctrl: bool) -> Seq<u8> {
    match key {
        Key::Char(c) => if ctrl && c == 'c' {
            seq![0x03u8]
        } else if ctrl && c == 'z' {
            seq![0x1au8]
        } else if ctrl && c == 'd' {
            seq![0x04u8]
        } else if ctrl && c == '\\' {
            seq![0x1cu8]
        } else if ctrl && 'a' <= c && c <= 'z' {
            seq![(c as u32 - 'a' as u32 + 1) as u8]
        } else if ctrl && '@' <= c && c <= '_' {
            seq![(c as u32 - '@' as u32) as u8]
        } else {
            seq![low_byte(c)]
        },
        Key::Enter => seq![0x0du8],
        Key::BackTab => seq![0x1bu8, 0x5bu8, 0x5au8],
        Key::Backspace => seq![0x7fu8],
        Key::Tab => seq![0x09u8],
        Key::Esc => seq![0x1bu8],
        Key::Up => seq![0x1bu8, 0x5bu8, 0x41u8],
        Key::Down => seq![0x1bu8, 0x5bu8, 0x42u8],
        Key::Right => seq![0x1bu8, 0x5bu8, 0x43u8],
        Key::Left => seq![0x1bu8, 0x5bu8, 0x44u8],
        Key::Home => seq![0x1bu8, 0x5bu8, 0x48u8],
        Key::End => seq![0x1bu8, 0x5bu8, 0x46u8],
        Key::PageUp => seq![0x1bu8, 0x5bu8, 0x35u8, 0x7eu8],
        Key::PageDown => seq![0x1bu8, 0x5bu8, 0x36u8, 0x7eu8],
        Key::Delete => seq![0x1bu8, 0x5bu8, 0x33u8, 0x7eu8],
        Key::Insert => seq![0x1bu8, 0x5bu8, 0x32u8, 0x7eu8],
        Key::Other => Seq::empty(),
    }
}

/// The bytes a key press sends to the shell: control codes for Control+letter and
/// Control+`@`..`_`, the character's byte otherwise, and VT escape sequences for
/// navigation keys.
pub fn key_to_bytes(code: Key, ctrl: bool) -> (v: Vec<u8>)
    ensures
        v@ == key_bytes(code, ctrl),
{
    let v = match code {
        Key::Char(c) => {
            if ctrl && c == 'c' {
                vec![0x03u8]
            } else if ctrl && c == 'z' {
                vec![0x1au8]
            } else if ctrl && c == 'd' {
                vec![0x04u8]
            } else if ctrl && c == '\\' {
                vec![0x1cu8]
            } else if ctrl && 'a' <= c && c <= 'z' {
                let b = (c as u32 - 'a' as u32 + 1) as u8;
                vec![b]
            } else if ctrl && '@' <= c && c <= '_' {
                let b = (c as u32 - '@' as u32) as u8;
                vec![b]
            } else {
                let b = ((c as u32) % 256) as u8;
                vec![b]
            }
        },
        Key::Enter => vec![0x0du8],
        Key::BackTab => vec![0x1bu8, 0x5bu8, 0x5au8],
        Key::Backspace => vec![0x7fu8],
        Key::Tab => vec![0x09u8],
        Key::Esc => vec![0x1bu8],
        Key::Up => vec![0x1bu8, 0x5bu8, 0x41u8],
        Key::Down => vec![0x1bu8, 0x5bu8, 0x42u8],
        Key::Right => vec![0x1bu8, 0x5bu8, 0x43u8],
        Key::Left => vec![0x1bu8, 0x5bu8, 0x44u8],
        Key::Home => vec![0x1bu8, 0x5bu8, 0x48u8],
        Key::End => vec![0x1bu8, 0x5bu8, 0x46u8],
        Key::PageUp => vec![0x1bu8, 0x5bu8, 0x35u8, 0x7eu8],
        Key::PageDown => vec![0x1bu8, 0x5bu8, 0x36u8, 0x7eu8],
        Key::Delete => vec![0x1bu8, 0x5bu8, 0x33u8, 0x7eu8],
        Key::Insert => vec![0x1bu8, 0x5bu8, 0x32u8, 0x7eu8],
        Key::Other => Vec::new(),
    };
    assert(v@ =~= key_bytes(code, ctrl));
    v
}

/// Control with a letter sends that letter's position in the alphabet.
pub proof fn lemma_ctrl_letter(c: char)
    requires
        'a' <= c <= 'z',
    ensures
        key_bytes(Key::Char(c), true) == seq![(c as u32 - 'a' as u32 + 1) as u8],
{
}

/// Without Control a character key sends the character's own byte, unchanged.
pub proof fn lemma_plain_char_passes_through(c: char)
    ensures
        key_bytes(Key::Char(c), false) == seq![low_byte(c)],
{
}

/// The bytes that type `command` into the shell and run it: each character as its key
/// (without Control), then Enter.
pub open spec fn typed_command(command: Seq<char>) -> Seq<u8>
    decreases command.len(),
{
    if command.len() == 0 {
        seq![0x0du8]
    } else {
        key_bytes(Key::Char(command[0]), false) + typed_command(command.drop_first())
    }
}

proof fn lemma_typed_command_split(command: Seq<char>, i: int)
    requires
        0 <= i < command.len(),
    ensures
        typed_command(command.skip(i)) == seq![low_byte(command[i])] + typed_command(command.skip(i + 1)),
{
    assert(command.skip(i).drop_first() =~= command.skip(i + 1));
}

/// The bytes that type `command` into the shell and run it.
pub fn command_input_bytes(command: &str) -> (v: Vec<u8>)
    ensures
        v@ == typed_command(command@),
{
    let mut out: Vec<u8> = Vec::new();
    let mut i: usize = 0;
    let ghost cs = command@;
    let chars = chars_of(command);
    assert(cs.skip(0) =~= cs);
    assert(out@ + typed_command(cs.skip(0)) =~= typed_command(cs));
    while i < chars.len()
        invariant
            i <= chars@.len(),
            chars@ == cs,
            out@ + typed_command(cs.skip(i as int)) == typed_command(cs),
        decreases chars.len() - i,
    {
        proof {
            lemma_typed_command_split(cs, i as int);
        }
        let b = key_to_bytes(Key::Char(chars[i]), false);
        out.push(b[0]);
        assert(out@ + typed_command(cs.skip(i + 1)) =~= typed_command(cs));
        i = i + 1;
    }
    assert(cs.skip(cs.len() as int) =~= Seq::<char>::empty());
    out.push(0x0du8);
    assert(out@ =~= typed_command(cs));
    out
}

/// The terminal's own shortcuts, taken before a key reaches the AI bar or the shell.
#[derive(Clone, Copy, Debug, PartialEq, Eq, Structural)]
pub enum Shortcut {
    /// Ctrl+Shift+C: copy the selection.
    CopySelection,
    /// Ctrl+Shift+T: edit the config file and reload the theme.
    EditConfig,
    /// Ctrl+K: open the AI bar.
    OpenAiBar,
    /// Not a shortcut.
    NoShortcut,
}

pub open spec fn shortcut_spec(key: Key, ctrl: bool, shift: bool) -> Shortcut {
    if ctrl && shift && (key == Key::Char('c') || key == Key::Char('C')) {
        Shortcut::CopySelection
    } else if ctrl && shift && (key == Key::Char('t') || key == Key::Char('T')) {
        Shortcut::EditConfig
    } else if ctrl && (key == Key::Char('k') || key == Key::Char('K')) {
        Shortcut::OpenAiBar
    } else {
        Shortcut::NoShortcut
    }
}

/// The shortcut a key press is, with Control and Shift as held.
pub fn shortcut(key: Key, ctrl: bool, shift: bool) -> (s: Shortcut)
    ensures
        s == shortcut_spec(key, ctrl, shift),
{
    if ctrl && shift && (key == Key::Char('c') || key == Key::Char('C')) {
        Shortcut::CopySelection
    } else if ctrl && shift && (key == Key::Char('t') || key == Key::Char('T')) {
        Shortcut::EditConfig
    } else if ctrl && (key == Key::Char('k') || key == Key::Char('K')) {
        Shortcut::OpenAiBar
    } else {
        Shortcut::NoShortcut
    }
}


/// Control with a letter sends the same control code whatever the letter's case, the
/// letter's position in the alphabet (Ctrl+A and Ctrl+a send 1, Ctrl+Z 26), and Control
/// with `@` to `_` sends the character's code minus 64 (so Ctrl+\ sends 28).
pub proof fn lemma_ctrl_codes(c: char)
    ensures
        'a' <= c <= 'z' ==> key_bytes(Key::Char(c), true) == key_bytes(
            Key::Char(((c as u32) - 32) as char),
            true,
        ),
        'a' <= c <= 'z' ==> key_bytes(Key::Char(c), true) == seq![((c as u32) - 96) as u8],
        '@' <= c <= '_' ==> key_bytes(Key::Char(c), true) == seq![((c as u32) - 64) as u8],
{
}

/// The arrow keys and Home send, with or without Control, the CSI sequences that move the
/// screen's cursor one row up or down, one column right or left, and to the top left
/// corner.
pub proof fn lemma_cursor_keys_move_cursor(m: ScreenModel, ctrl: bool)
    requires
        m.wf(),
    ensures
        ({
            let row = m.cursor_row as int;
            let col = m.cursor_col as int;
            let csi = |k: Key| {
                let b = key_bytes(k, ctrl);
                b.len() == 3 && b[0] == 0x1b && b[1] == 0x5b
            };
            let after = |k: Key| m.after_csi(Seq::empty(), key_bytes(k, ctrl)[2] as char);
            &&& csi(Key::Up) && csi(Key::Down) && csi(Key::Right) && csi(Key::Left) && csi(
                Key::Home,
            )
            &&& after(Key::Up) == (ScreenModel {
                cursor_row: (if row > 0 {
                    row - 1
                } else {
                    0
                }) as nat,
                ..m
            })
            &&& after(Key::Down) == (ScreenModel {
                cursor_row: (if row + 1 < m.rows {
                    row + 1
                } else {
                    row
                }) as nat,
                ..m
            })
            &&& after(Key::Right) == (ScreenModel {
                cursor_col: (if col + 1 < m.cols {
                    col + 1
                } else {
                    col
                }) as nat,
                ..m
            })
            &&& after(Key::Left) == (ScreenModel {
                cursor_col: (if col > 0 {
                    col - 1
                } else {
                    0
                }) as nat,
                ..m
            })
            &&& after(Key::Home) == (ScreenModel { cursor_row: 0, cursor_col: 0, ..m })
        }),
{
}

} // verus!
