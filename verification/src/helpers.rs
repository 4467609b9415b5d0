//! Pure helpers of the terminal: colour parsing, cleaning of model replies, prompt
//! detection, completion suffixes, abbreviations and history suggestions.

use vstd::prelude::*;
use vstd::string::StrSliceExecFns;
use crate::text::{
    chars_of, contains_exec, contains_seq, ends_with, is_ws, lead_while, lemma_lead_while,
    lemma_rfind, lemma_trim_idempotent, lemma_trim_shape, lemma_trim_start_split,
    range_starts_with, rfind, rfind_exec, skip_ws_forward, starts_with, str_lowercase,
    string_of_range, to_lowercase, trim, trim_bounds, trim_start, utf8_len, utf8_width, vec_range,
    ws_pred, non_ws_pred, occurs_at, skip_non_ws_forward,
};

verus! {

// ---------------------------------------------------------------------------
// Hex colours
// ---------------------------------------------------------------------------

/// Value of a hexadecimal digit.
pub open spec fn hex_digit_value(c: char) -> Option<u8> {
    if '0' <= c && c <= '9' {
        Some((c as u32 - '0' as u32) as u8)
    } else if 'a' <= c && c <= 'f' {
        Some((c as u32 - 'a' as u32 + 10) as u8)
    } else if 'A' <= c && c <= 'F' {
        Some((c as u32 - 'A' as u32 + 10) as u8)
    } else {
        None
    }
}

/// The byte that the two hexadecimal digits `a` `b` denote.
pub open spec fn hex_byte(a: char, b: char) -> Option<u8> {
    match (hex_digit_value(a), hex_digit_value(b)) {
        (Some(x), Some(y)) => Some((x * 16 + y) as u8),
        _ => None,
    }
}

/// The colour `t` denotes when it is six hexadecimal digits `rrggbb`.
pub open spec fn hex_rgb(t: Seq<char>) -> Option<(u8, u8, u8)> {
    if t.len() == 6 {
        match (hex_byte(t[0], t[1]), hex_byte(t[2], t[3]), hex_byte(t[4], t[5])) {
            (Some(r), Some(g), Some(b)) => Some((r, g, b)),
            _ => None,
        }
    } else {
        None
    }
}

/// The text without one leading `#`, if it has one.
pub open spec fn without_hash(s: Seq<char>) -> Seq<char> {
    if s.len() > 0 && s[0] == '#' {
        s.drop_first()
    } else {
        s
    }
}

/// The colour that "#rrggbb" or "rrggbb" denotes; `None` for any other text.
pub open spec fn hex_color(s: Seq<char>) -> Option<(u8, u8, u8)> {
    hex_rgb(without_hash(s))
}

fn hex_digit(c: char) -> (r: Option<u8>)
    ensures
        r == hex_digit_value(c),
{
    if '0' <= c && c <= '9' {
        Some((c as u32 - '0' as u32) as u8)
    } else if 'a' <= c && c <= 'f' {
        Some((c as u32 - 'a' as u32 + 10) as u8)
    } else if 'A' <= c && c <= 'F' {
        Some((c as u32 - 'A' as u32 + 10) as u8)
    } else {
        None
    }
}

fn hex_pair(a: char, b: char) -> (r: Option<u8>)
    ensures
        r == hex_byte(a, b),
{
    match (hex_digit(a), hex_digit(b)) {
        (Some(x), Some(y)) => Some(x * 16 + y),
        _ => None,
    }
}

/// Parses a hex color string "#rrggbb" or "rrggbb" into (r, g, b). Returns None if invalid.
pub fn parse_hex(s: &str) -> (r: Option<(u8, u8, u8)>)
    ensures
        r == hex_color(s@),
{
    let v = chars_of(s);
    let start: usize = if v.len() > 0 && v[0] == '#' {
        1
    } else {
        0
    };
    if v.len() - start != 6 {
        return None;
    }
    let ghost t = without_hash(v@);
    assert(t[0] == v@[start as int] && t[1] == v@[start + 1] && t[2] == v@[start + 2]);
    assert(t[3] == v@[start + 3] && t[4] == v@[start + 4] && t[5] == v@[start + 5]);
    match (hex_pair(v[start], v[start + 1]), hex_pair(v[start + 2], v[start + 3])) {
        (Some(r), Some(g)) => match hex_pair(v[start + 4], v[start + 5]) {
            Some(b) => Some((r, g, b)),
            None => None,
        },
        _ => None,
    }
}

/// The hexadecimal digit for `d` (below 16), in lower or upper case.
pub open spec fn hex_digit_char(d: int, upper: bool) -> char {
    if upper {
        seq!['0', '1', '2', '3', '4', '5', '6', '7', '8', '9', 'A', 'B', 'C', 'D', 'E', 'F'][d]
    } else {
        seq!['0', '1', '2', '3', '4', '5', '6', '7', '8', '9', 'a', 'b', 'c', 'd', 'e', 'f'][d]
    }
}

/// `n` as two hexadecimal digits (what `format!("{:02x}", n)` or `{:02X}` writes).
pub open spec fn hex_text(n: u8, upper: bool) -> Seq<char> {
    seq![hex_digit_char(n as int / 16, upper), hex_digit_char(n as int % 16, upper)]
}

proof fn lemma_hex_digit_char(d: int, upper: bool)
    requires
        0 <= d < 16,
    ensures
        hex_digit_value(hex_digit_char(d, upper)) == Some(d as u8),
{
    if d == 0 {
    } else if d == 1 {
    } else if d == 2 {
    } else if d == 3 {
    } else if d == 4 {
    } else if d == 5 {
    } else if d == 6 {
    } else if d == 7 {
    } else if d == 8 {
    } else if d == 9 {
    } else if d == 10 {
    } else if d == 11 {
    } else if d == 12 {
    } else if d == 13 {
    } else if d == 14 {
    } else {
    }
}

proof fn lemma_hex_text(n: u8, upper: bool)
    ensures
        hex_byte(hex_text(n, upper)[0], hex_text(n, upper)[1]) == Some(n),
{
    lemma_hex_digit_char(n as int / 16, upper);
    lemma_hex_digit_char(n as int % 16, upper);
}

/// A colour written as two hexadecimal digits per component, in lower or upper case,
/// with or without a leading `#`, parses back to that colour.
pub proof fn lemma_hex_round_trip(r: u8, g: u8, b: u8, upper: bool, hash: bool)
    ensures
        hex_color(
            (if hash {
                seq!['#']
            } else {
                Seq::empty()
            }) + hex_text(r, upper) + hex_text(g, upper) + hex_text(b, upper),
        ) == Some((r, g, b)),
{
    let digits = hex_text(r, upper) + hex_text(g, upper) + hex_text(b, upper);
    let s = (if hash {
        seq!['#']
    } else {
        Seq::<char>::empty()
    }) + digits;
    lemma_hex_text(r, upper);
    lemma_hex_text(g, upper);
    lemma_hex_text(b, upper);
    lemma_hex_digit_char(r as int / 16, upper);
    assert(without_hash(s) =~= digits);
}

/// Two leading `#`s, or any text that is not six hexadecimal digits after at most one
/// `#`, is no colour.
pub proof fn lemma_hex_rejects(t: Seq<char>)
    ensures
        hex_color(seq!['#', '#'] + t) is None,
        (t.len() != 6 && !(t.len() == 7 && t[0] == '#')) ==> hex_color(t) is None,
{
    let u = seq!['#', '#'] + t;
    assert(without_hash(u)[0] == '#');
}

// ---------------------------------------------------------------------------
// Cleaning model replies
// ---------------------------------------------------------------------------

pub open spec fn fence() -> Seq<char> {
    seq!['`', '`', '`']
}

pub open spec fn bash_tag() -> Seq<char> {
    seq!['b', 'a', 's', 'h']
}

pub open spec fn sh_tag() -> Seq<char> {
    seq!['s', 'h']
}

/// The text is a markdown code block: it starts and ends with a ``` fence.
pub open spec fn is_fenced(t: Seq<char>) -> bool {
    starts_with(t, fence()) && ends_with(t.skip(3), fence())
}

/// Drops a surrounding ``` fence (and the whitespace inside it).
pub open spec fn strip_fence(t: Seq<char>) -> Seq<char> {
    if is_fenced(t) {
        trim(t.skip(3).take(t.skip(3).len() - 3))
    } else {
        t
    }
}

/// Drops a leading `bash` or `sh` tag (and the whitespace around what follows).
pub open spec fn strip_shell_tag(t: Seq<char>) -> Seq<char> {
    if starts_with(t, bash_tag()) {
        trim(t.skip(4))
    } else if starts_with(t, sh_tag()) {
        trim(t.skip(2))
    } else {
        t
    }
}

/// The text of a model reply, trimmed; when it is a markdown code block, its content
/// without the fences and without a `bash`/`sh` language tag.
pub open spec fn stripped_code(s: Seq<char>) -> Seq<char> {
    if is_fenced(trim(s)) {
        strip_shell_tag(strip_fence(trim(s)))
    } else {
        trim(s)
    }
}

/// Bounds of `stripped_code(v[lo..hi])` inside `v`.
pub fn strip_code_bounds(v: &Vec<char>, lo: usize, hi: usize) -> (r: (usize, usize))
    requires
        lo <= hi <= v.len(),
    ensures
        lo <= r.0 <= r.1 <= hi,
        v@.subrange(r.0 as int, r.1 as int) == stripped_code(v@.subrange(lo as int, hi as int)),
{
    let ghost s = v@.subrange(lo as int, hi as int);
    let (a, b) = trim_bounds(v, lo, hi);
    let ghost t = v@.subrange(a as int, b as int);
    // fence
    let fenced = b - a >= 6 && v[a] == '`' && v[a + 1] == '`' && v[a + 2] == '`' && v[b - 3]
        == '`' && v[b - 2] == '`' && v[b - 1] == '`';
    proof {
        if t.len() >= 3 {
            assert(t[0] == v@[a as int] && t[1] == v@[a + 1] && t[2] == v@[a + 2]);
        }
        if t.len() >= 6 {
            assert(t.skip(3)[t.skip(3).len() - 3] == v@[b - 3]);
            assert(t.skip(3)[t.skip(3).len() - 2] == v@[b - 2]);
            assert(t.skip(3)[t.skip(3).len() - 1] == v@[b - 1]);
        }
        if fenced {
            assert(t.subrange(0, 3) =~= fence());
            assert(t.skip(3).subrange(t.skip(3).len() - 3, t.skip(3).len() as int) =~= fence());
        } else {
            if starts_with(t, fence()) && ends_with(t.skip(3), fence()) {
                assert(t.subrange(0, 3)[0] == t[0]);
                assert(t.subrange(0, 3)[1] == t[1]);
                assert(t.subrange(0, 3)[2] == t[2]);
                let u = t.skip(3);
                assert(u.subrange(u.len() - 3, u.len() as int)[0] == u[u.len() - 3]);
                assert(u.subrange(u.len() - 3, u.len() as int)[1] == u[u.len() - 2]);
                assert(u.subrange(u.len() - 3, u.len() as int)[2] == u[u.len() - 1]);
            }
        }
    }
    let (c, d) = if fenced {
        let (c, d) = trim_bounds(v, a + 3, b - 3);
        proof {
            assert(t.skip(3).take(t.skip(3).len() - 3) =~= v@.subrange(a + 3, b - 3));
        }
        (c, d)
    } else {
        (a, b)
    };
    let ghost u = v@.subrange(c as int, d as int);
    assert(u == strip_fence(t));
    // shell tag
    let bash = fenced && d - c >= 4 && v[c] == 'b' && v[c + 1] == 'a' && v[c + 2] == 's' && v[c
        + 3] == 'h';
    let sh = fenced && d - c >= 2 && v[c] == 's' && v[c + 1] == 'h';
    proof {
        if u.len() >= 2 {
            assert(u[0] == v@[c as int] && u[1] == v@[c + 1]);
        }
        if u.len() >= 4 {
            assert(u[2] == v@[c + 2] && u[3] == v@[c + 3]);
        }
        if bash {
            assert(u.subrange(0, 4) =~= bash_tag());
        } else if fenced && starts_with(u, bash_tag()) {
            assert(u.subrange(0, 4)[0] == u[0]);
            assert(u.subrange(0, 4)[1] == u[1]);
            assert(u.subrange(0, 4)[2] == u[2]);
            assert(u.subrange(0, 4)[3] == u[3]);
        }
        if sh {
            assert(u.subrange(0, 2) =~= sh_tag());
        } else if fenced && starts_with(u, sh_tag()) {
            assert(u.subrange(0, 2)[0] == u[0]);
            assert(u.subrange(0, 2)[1] == u[1]);
        }
    }
    if bash {
        let r = trim_bounds(v, c + 4, d);
        assert(u.skip(4) =~= v@.subrange(c + 4, d as int));
        r
    } else if sh {
        let r = trim_bounds(v, c + 2, d);
        assert(u.skip(2) =~= v@.subrange(c + 2, d as int));
        r
    } else {
        (c, d)
    }
}

/// Removes surrounding whitespace and, from a markdown code block, its ``` fences and a
/// `bash`/`sh` language tag.
pub fn strip_code_blocks(text: &str) -> (r: String)
    ensures
        r@ == stripped_code(text@),
{
    let v = chars_of(text);
    let (a, b) = strip_code_bounds(&v, 0, v.len());
    assert(v@.subrange(0, v@.len() as int) =~= v@);
    string_of_range(&v, a, b)
}

/// What `strip_code_blocks` returns has no whitespace at either end.
pub proof fn lemma_stripped_code_is_trimmed(s: Seq<char>)
    ensures
        trim(stripped_code(s)) == stripped_code(s),
{
    let t = trim(s);
    let u = strip_fence(t);
    lemma_trim_idempotent(s);
    if starts_with(t, fence()) && ends_with(t.skip(3), fence()) {
        lemma_trim_idempotent(t.skip(3).take(t.skip(3).len() - 3));
    }
    if is_fenced(t) && starts_with(u, bash_tag()) {
        lemma_trim_idempotent(u.skip(4));
    } else if is_fenced(t) && starts_with(u, sh_tag()) {
        lemma_trim_idempotent(u.skip(2));
    }
}

// ---------------------------------------------------------------------------
// Destructive commands
// ---------------------------------------------------------------------------

/// The risk label for an already lower-cased command.
pub open spec fn destructive_label(t: Seq<char>) -> Option<Seq<char>> {
    if contains_seq(t, "rm -rf"@) || contains_seq(t, "rm -fr"@) {
        Some("recursive delete (rm -rf)"@)
    } else if contains_seq(t, "mkfs"@) {
        Some("disk/filesystem format"@)
    } else if contains_seq(t, "dd "@) && contains_seq(t, " of=/dev/"@) {
        Some("raw block device write (dd)"@)
    } else if contains_seq(t, ">/dev/sd"@) || contains_seq(t, "> /dev/sd"@) {
        Some("block device overwrite"@)
    } else if contains_seq(t, ":(){:|:&};:"@) {
        Some("fork bomb"@)
    } else {
        None
    }
}

pub open spec fn opt_str_view(o: Option<&str>) -> Option<Seq<char>> {
    match o {
        Some(s) => Some(s@),
        None => None,
    }
}

fn has(v: &Vec<char>, pat: &str) -> (b: bool)
    ensures
        b == contains_seq(v@, pat@),
{
    contains_exec(v, &chars_of(pat))
}

/// The risk label for a command that is already trimmed and lower-cased.
pub fn destructive_hint_of_lowercase(t: &str) -> (r: Option<&'static str>)
    ensures
        opt_str_view(r) == destructive_label(t@),
{
    let v = chars_of(t);
    if has(&v, "rm -rf") || has(&v, "rm -fr") {
        return Some("recursive delete (rm -rf)");
    }
    if has(&v, "mkfs") {
        return Some("disk/filesystem format");
    }
    if has(&v, "dd ") && has(&v, " of=/dev/") {
        return Some("raw block device write (dd)");
    }
    if has(&v, ">/dev/sd") || has(&v, "> /dev/sd") {
        return Some("block device overwrite");
    }
    if has(&v, ":(){:|:&};:") {
        return Some("fork bomb");
    }
    None
}

/// Returns a short risk label if the command looks destructive or needs extra care.
pub fn destructive_command_hint(cmd: &str) -> (r: Option<&'static str>)
    ensures
        opt_str_view(r) == destructive_label(str_lowercase(trim(cmd@))),
{
    let v = chars_of(cmd);
    let (a, b) = trim_bounds(&v, 0, v.len());
    assert(v@.subrange(0, v@.len() as int) =~= v@);
    let trimmed = cmd.substring_char(a, b);
    let lower = to_lowercase(trimmed);
    destructive_hint_of_lowercase(lower.as_str())
}

/// A (lower-cased) command is flagged wherever in it a dangerous pattern stands: `rm -rf`
/// or `rm -fr` as a recursive delete, otherwise `mkfs` as a format, otherwise `dd ` with
/// ` of=/dev/` as a raw device write; and a command holding none of the patterns is not
/// flagged.
pub proof fn lemma_destructive_patterns_flagged(before: Seq<char>, after: Seq<char>, t: Seq<char>)
    ensures
        destructive_label(before + "rm -rf"@ + after) == Some("recursive delete (rm -rf)"@),
        destructive_label(before + "rm -fr"@ + after) == Some("recursive delete (rm -rf)"@),
        !contains_seq(before + "mkfs"@ + after, "rm -rf"@) && !contains_seq(
            before + "mkfs"@ + after,
            "rm -fr"@,
        ) ==> destructive_label(before + "mkfs"@ + after) == Some("disk/filesystem format"@),
        !contains_seq(t, "rm -rf"@) && !contains_seq(t, "rm -fr"@) && !contains_seq(t, "mkfs"@)
            && !contains_seq(t, "dd "@) && !contains_seq(t, ">/dev/sd"@) && !contains_seq(
            t,
            "> /dev/sd"@,
        ) && !contains_seq(t, ":(){:|:&};:"@) ==> destructive_label(t) is None,
{
    let a = before + "rm -rf"@ + after;
    assert(a.subrange(before.len() as int, before.len() + "rm -rf"@.len() as int) =~= "rm -rf"@);
    assert(occurs_at(a, "rm -rf"@, before.len() as int));
    let b = before + "rm -fr"@ + after;
    assert(b.subrange(before.len() as int, before.len() + "rm -fr"@.len() as int) =~= "rm -fr"@);
    assert(occurs_at(b, "rm -fr"@, before.len() as int));
    let c = before + "mkfs"@ + after;
    assert(c.subrange(before.len() as int, before.len() + "mkfs"@.len() as int) =~= "mkfs"@);
    assert(occurs_at(c, "mkfs"@, before.len() as int));
}

// ---------------------------------------------------------------------------
// Command part of a terminal line
// ---------------------------------------------------------------------------

/// The prompt endings tried, in order.
pub open spec fn prompt_separators() -> Seq<Seq<char>> {
    seq![" $ "@, " # "@, "> "@, "] "@]
}

/// What follows the last occurrence of the first separator that occurs in `l`.
pub open spec fn command_after(l: Seq<char>, seps: Seq<Seq<char>>) -> Seq<char>
    decreases seps.len(),
{
    if seps.len() == 0 {
        trim_start(l)
    } else {
        match rfind(l, seps[0]) {
            Some(i) => trim_start(l.skip(i + seps[0].len())),
            None => command_after(l, seps.drop_first()),
        }
    }
}

/// The command typed on a terminal line, after any shell prompt.
pub open spec fn command_part(line: Seq<char>) -> Seq<char> {
    command_after(trim(line), prompt_separators())
}

/// Start, within `v`, of the command after separator `sep` in `v[a..b]`, if `sep` occurs there.
fn after_last_separator(v: &Vec<char>, a: usize, b: usize, sep: &str) -> (r: Option<usize>)
    requires
        a <= b <= v.len(),
    ensures
        match r {
            Some(k) => a <= k <= b && rfind(v@.subrange(a as int, b as int), sep@) is Some
                && v@.subrange(k as int, b as int) == trim_start(
                v@.subrange(a as int, b as int).skip(
                    rfind(v@.subrange(a as int, b as int), sep@)->0 + sep@.len(),
                ),
            ),
            None => rfind(v@.subrange(a as int, b as int), sep@) is None,
        },
{
    let l = vec_range(v, a, b);
    let p = chars_of(sep);
    match rfind_exec(&l, &p) {
        Some(i) => {
            proof {
                lemma_rfind(l@, p@);
            }
            let k = skip_ws_forward(v, a + i + p.len(), b);
            assert(l@.skip(i + p@.len()) =~= v@.subrange(a + i + p.len(), b as int));
            Some(k)
        },
        None => None,
    }
}

/// From a terminal line (possibly with shell prompt), return the part that is the command to complete.
pub fn command_part_of_line(line: &str) -> (r: &str)
    ensures
        r@ == command_part(line@),
{
    let v = chars_of(line);
    let (a, b) = trim_bounds(&v, 0, v.len());
    assert(v@.subrange(0, v@.len() as int) =~= v@);
    let ghost l = v@.subrange(a as int, b as int);
    let ghost seps = prompt_separators();
    assert(seps[0] == " $ "@ && seps[1] == " # "@ && seps[2] == "> "@ && seps[3] == "] "@);
    assert(seps.drop_first().drop_first().drop_first().drop_first() =~= Seq::<Seq<char>>::empty());
    let ghost s1 = seps.drop_first();
    let ghost s2 = s1.drop_first();
    let ghost s3 = s2.drop_first();
    assert(s1[0] == " # "@ && s2[0] == "> "@ && s3[0] == "] "@);
    assert(s3.drop_first() =~= Seq::<Seq<char>>::empty());
    let start = if let Some(k) = after_last_separator(&v, a, b, " $ ") {
        assert(v@.subrange(k as int, b as int) == command_after(l, seps));
        k
    } else if let Some(k) = after_last_separator(&v, a, b, " # ") {
        assert(command_after(l, seps) == command_after(l, s1));
        assert(v@.subrange(k as int, b as int) == command_after(l, s1));
        k
    } else if let Some(k) = after_last_separator(&v, a, b, "> ") {
        assert(command_after(l, seps) == command_after(l, s1));
        assert(command_after(l, s1) == command_after(l, s2));
        assert(v@.subrange(k as int, b as int) == command_after(l, s2));
        k
    } else if let Some(k) = after_last_separator(&v, a, b, "] ") {
        assert(command_after(l, seps) == command_after(l, s1));
        assert(command_after(l, s1) == command_after(l, s2));
        assert(command_after(l, s2) == command_after(l, s3));
        assert(v@.subrange(k as int, b as int) == command_after(l, s3));
        k
    } else {
        assert(command_after(l, seps) == command_after(l, s1));
        assert(command_after(l, s1) == command_after(l, s2));
        assert(command_after(l, s2) == command_after(l, s3));
        assert(command_after(l, s3) == command_after(l, s3.drop_first()));
        let k = skip_ws_forward(&v, a, b);
        assert(v@.subrange(k as int, b as int) == command_after(l, s3.drop_first()));
        k
    };
    assert(l == trim(line@));
    line.substring_char(start, b)
}

/// The command part is the tail of the trimmed line, and starts with no whitespace.
pub proof fn lemma_command_part_is_tail(line: Seq<char>)
    ensures
        command_part(line).is_suffix_of(trim(line)),
        command_part(line).len() > 0 ==> !is_ws(command_part(line)[0]),
{
    lemma_command_after_is_tail(trim(line), prompt_separators());
}

proof fn lemma_trim_start_is_tail(s: Seq<char>)
    ensures
        trim_start(s).is_suffix_of(s),
        trim_start(s).len() > 0 ==> !is_ws(trim_start(s)[0]),
{
    lemma_lead_while(s, ws_pred());
    lemma_trim_shape(s);
    assert(s.subrange(s.len() - trim_start(s).len(), s.len() as int) =~= trim_start(s));
}

proof fn lemma_command_after_is_tail(l: Seq<char>, seps: Seq<Seq<char>>)
    ensures
        command_after(l, seps).is_suffix_of(l),
        command_after(l, seps).len() > 0 ==> !is_ws(command_after(l, seps)[0]),
    decreases seps.len(),
{
    if seps.len() == 0 {
        lemma_trim_start_is_tail(l);
    } else {
        match rfind(l, seps[0]) {
            Some(i) => {
                lemma_rfind(l, seps[0]);
                let rest = l.skip(i + seps[0].len());
                lemma_trim_start_is_tail(rest);
                let c = trim_start(rest);
                assert(l.subrange(l.len() - c.len(), l.len() as int) =~= rest.subrange(
                    rest.len() - c.len(),
                    rest.len() as int,
                ));
            },
            None => {
                lemma_command_after_is_tail(l, seps.drop_first());
            },
        }
    }
}

// ---------------------------------------------------------------------------
// Completion suffix
// ---------------------------------------------------------------------------

/// The text to append to the line so that it reads as the model's reply.
pub open spec fn completion_suffix(
    full_prefix: Seq<char>,
    command_part: Seq<char>,
    reply: Seq<char>,
) -> Seq<char> {
    let text = stripped_code(trim(reply));
    if text.len() == 0 {
        Seq::empty()
    } else if starts_with(text, command_part) {
        trim_start(text.skip(command_part.len() as int))
    } else if starts_with(text, trim(full_prefix)) {
        trim_start(text.skip(trim(full_prefix).len() as int))
    } else {
        text
    }
}

/// Given the full line prefix and the AI reply (full completed command), return the suffix to append.
pub fn completion_suffix_from_reply(full_prefix: &str, command_part: &str, reply: &str) -> (r:
    String)
    ensures
        r@ == completion_suffix(full_prefix@, command_part@, reply@),
{
    let v = chars_of(reply);
    let (a, b) = trim_bounds(&v, 0, v.len());
    assert(v@.subrange(0, v@.len() as int) =~= v@);
    let (c, d) = strip_code_bounds(&v, a, b);
    let ghost text = v@.subrange(c as int, d as int);
    if c == d {
        assert(text =~= Seq::<char>::empty());
        return String::new();
    }
    let cp = chars_of(command_part);
    if range_starts_with(&v, c, d, &cp) {
        let k = skip_ws_forward(&v, c + cp.len(), d);
        assert(text.skip(cp@.len() as int) =~= v@.subrange(c + cp.len(), d as int));
        return string_of_range(&v, k, d);
    }
    let fp = chars_of(full_prefix);
    let (e, f) = trim_bounds(&fp, 0, fp.len());
    assert(fp@.subrange(0, fp@.len() as int) =~= fp@);
    let tp = vec_range(&fp, e, f);
    if range_starts_with(&v, c, d, &tp) {
        let k = skip_ws_forward(&v, c + tp.len(), d);
        assert(text.skip(tp@.len() as int) =~= v@.subrange(c + tp.len(), d as int));
        return string_of_range(&v, k, d);
    }
    string_of_range(&v, c, d)
}

/// When the cleaned reply begins with the command part, that command part, some
/// whitespace and the suffix make up the cleaned reply.
pub proof fn lemma_completion_suffix_rebuilds_reply(
    full_prefix: Seq<char>,
    command_part: Seq<char>,
    reply: Seq<char>,
)
    requires
        stripped_code(trim(reply)).len() > 0,
        starts_with(stripped_code(trim(reply)), command_part),
    ensures
        exists|gap: Seq<char>|
            (forall|k: int| 0 <= k < gap.len() ==> is_ws(#[trigger] gap[k])) && stripped_code(
                trim(reply),
            ) == command_part + gap + completion_suffix(full_prefix, command_part, reply),
{
    let text = stripped_code(trim(reply));
    let rest = text.skip(command_part.len() as int);
    lemma_trim_start_split(rest);
    let gap = rest.take(lead_while(rest, ws_pred()) as int);
    assert(text.subrange(0, command_part.len() as int) == command_part);
    assert(text =~= text.subrange(0, command_part.len() as int) + rest);
    assert(completion_suffix(full_prefix, command_part, reply) == trim_start(rest));
    assert(text =~= command_part + gap + completion_suffix(full_prefix, command_part, reply));
}

// ---------------------------------------------------------------------------
// Abbreviations
// ---------------------------------------------------------------------------

/// A table from abbreviation to expansion; a later entry for a key replaces earlier ones.
pub struct AbbrevMap {
    entries: Vec<(String, String)>,
}

/// The map denoted by a list of entries, later entries taking precedence.
pub open spec fn entries_map(e: Seq<(String, String)>) -> Map<Seq<char>, Seq<char>>
    decreases e.len(),
{
    if e.len() == 0 {
        Map::empty()
    } else {
        entries_map(e.drop_last()).insert(e.last().0@, e.last().1@)
    }
}

impl View for AbbrevMap {
    type V = Map<Seq<char>, Seq<char>>;

    closed spec fn view(&self) -> Map<Seq<char>, Seq<char>> {
        entries_map(self.entries@)
    }
}

/// A key is in the map exactly when some entry has it.
proof fn lemma_entries_map_contains(e: Seq<(String, String)>, k: Seq<char>)
    ensures
        entries_map(e).contains_key(k) <==> exists|i: int| 0 <= i < e.len() && (#[trigger] e[i]).0@
            == k,
    decreases e.len(),
{
    if e.len() > 0 {
        let d = e.drop_last();
        lemma_entries_map_contains(d, k);
        if exists|i: int| 0 <= i < e.len() && (#[trigger] e[i]).0@ == k {
            let i = choose|i: int| 0 <= i < e.len() && (#[trigger] e[i]).0@ == k;
            if i < e.len() - 1 {
                assert(d[i] == e[i]);
            }
        }
        if exists|i: int| 0 <= i < d.len() && (#[trigger] d[i]).0@ == k {
            let i = choose|i: int| 0 <= i < d.len() && (#[trigger] d[i]).0@ == k;
            assert(e[i] == d[i]);
        }
    }
}

/// The value of a key is that of the last entry having it.
proof fn lemma_entries_map_value(e: Seq<(String, String)>, k: Seq<char>, i: int)
    requires
        0 <= i < e.len(),
        e[i].0@ == k,
        forall|j: int| i < j < e.len() ==> (#[trigger] e[j]).0@ != k,
    ensures
        entries_map(e).contains_key(k),
        entries_map(e)[k] == e[i].1@,
    decreases e.len(),
{
    let d = e.drop_last();
    if i < e.len() - 1 {
        assert(e[e.len() - 1].0@ != k);
        assert(d[i] == e[i]);
        assert forall|j: int| i < j < d.len() implies (#[trigger] d[j]).0@ != k by {
            assert(d[j] == e[j]);
        }
        lemma_entries_map_value(d, k, i);
    }
}

impl AbbrevMap {
    /// An empty table.
    pub fn new() -> (m: AbbrevMap)
        ensures
            m@ == Map::<Seq<char>, Seq<char>>::empty(),
    {
        AbbrevMap { entries: Vec::new() }
    }

    /// Sets the expansion of `key` to `value`.
    pub fn insert(&mut self, key: String, value: String)
        ensures
            final(self)@ == old(self)@.insert(key@, value@),
    {
        let ghost before = self.entries@;
        self.entries.push((key, value));
        assert(self.entries@.drop_last() =~= before);
    }

    /// Index of the last entry whose key is `key`.
    fn find(&self, key: &str) -> (r: Option<usize>)
        ensures
            match r {
                Some(i) => i < self.entries@.len() && self.entries@[i as int].0@ == key@ && forall|
                    j: int,
                | i < j < self.entries@.len() ==> self.entries@[j].0@ != key@,
                None => forall|j: int|
                    0 <= j < self.entries@.len() ==> self.entries@[j].0@ != key@,
            },
    {
        let k = key.to_owned();
        let mut i = self.entries.len();
        while i > 0
            invariant
                i <= self.entries@.len(),
                k@ == key@,
                forall|j: int| i <= j < self.entries@.len() ==> self.entries@[j].0@ != key@,
            decreases i,
        {
            if self.entries[i - 1].0 == k {
                return Some(i - 1);
            }
            i = i - 1;
        }
        None
    }

    /// The expansion of `key`, if any.
    pub fn get(&self, key: &str) -> (r: Option<&String>)
        ensures
            match r {
                Some(v) => self@.contains_key(key@) && v@ == self@[key@],
                None => !self@.contains_key(key@),
            },
    {
        proof {
            lemma_entries_map_contains(self.entries@, key@);
        }
        match self.find(key) {
            Some(i) => {
                proof {
                    lemma_entries_map_value(self.entries@, key@, i as int);
                }
                Some(&self.entries[i].1)
            },
            None => None,
        }
    }

    /// The number of abbreviations in the table.
    pub fn len(&self) -> (n: usize)
        ensures
            n == self@.dom().len(),
    {
        let ghost e = self.entries@;
        let mut n: usize = 0;
        let mut i: usize = 0;
        assert(e.take(0) =~= Seq::<(String, String)>::empty());
        assert(entries_map(e.take(0)).dom() =~= Set::<Seq<char>>::empty());
        while i < self.entries.len()
            invariant
                e == self.entries@,
                i <= e.len(),
                n <= i,
                entries_map(e.take(i as int)).dom().finite(),
                n == entries_map(e.take(i as int)).dom().len(),
            decreases e.len() - i,
        {
            let mut seen = false;
            let mut j: usize = 0;
            while j < i
                invariant
                    e == self.entries@,
                    j <= i < e.len(),
                    seen == exists|t: int| 0 <= t < j && (#[trigger] e[t]).0@ == e[i as int].0@,
                decreases i - j,
            {
                if self.entries[j].0 == self.entries[i].0 {
                    seen = true;
                }
                proof {
                    if !seen {
                        assert forall|t: int| 0 <= t < j + 1 implies (#[trigger] e[t]).0@ != e[i as int].0@ by {
                            if t == j {
                            } else {
                                assert(!(0 <= t < j && e[t].0@ == e[i as int].0@));
                            }
                        }
                    }
                }
                j = j + 1;
            }
            proof {
                let pre = e.take(i as int);
                let k = e[i as int].0@;
                assert(e.take(i + 1).drop_last() =~= pre);
                assert(e.take(i + 1).last() == e[i as int]);
                lemma_entries_map_contains(pre, k);
                assert(seen <==> exists|t: int| 0 <= t < pre.len() && (#[trigger] pre[t]).0@ == k) by {
                    if seen {
                        let t = choose|t: int| 0 <= t < i && (#[trigger] e[t]).0@ == k;
                        assert(pre[t] == e[t]);
                    }
                    if exists|t: int| 0 <= t < pre.len() && (#[trigger] pre[t]).0@ == k {
                        let t = choose|t: int| 0 <= t < pre.len() && (#[trigger] pre[t]).0@ == k;
                        assert(pre[t] == e[t]);
                    }
                }
                assert(entries_map(e.take(i + 1)).dom() =~= entries_map(pre).dom().insert(k));
            }
            if !seen {
                n = n + 1;
            }
            i = i + 1;
        }
        assert(e.take(e.len() as int) =~= e);
        n
    }

    /// Whether `key` has an expansion.
    pub fn contains_key(&self, key: &str) -> (b: bool)
        ensures
            b == self@.contains_key(key@),
    {
        proof {
            lemma_entries_map_contains(self.entries@, key@);
        }
        self.find(key).is_some()
    }
}

/// The built-in abbreviations.
pub open spec fn builtin_abbrevs() -> Map<Seq<char>, Seq<char>> {
    Map::empty().insert("gco"@, "git checkout "@).insert("gst"@, "git status "@).insert(
        "gci"@,
        "git commit "@,
    ).insert("gbr"@, "git branch "@).insert("glog"@, "git log "@).insert(
        "gdiff"@,
        "git diff "@,
    ).insert("gadd"@, "git add "@).insert("gpush"@, "git push "@).insert(
        "gpull"@,
        "git pull "@,
    ).insert("gmerge"@, "git merge "@).insert("gfetch"@, "git fetch "@).insert(
        "gshow"@,
        "git show "@,
    ).insert("grebase"@, "git rebase "@).insert("greset"@, "git reset "@).insert(
        "ll"@,
        "ls -la "@,
    ).insert("la"@, "ls -la "@)
}

fn add_abbrev(m: &mut AbbrevMap, key: &str, value: &str)
    ensures
        final(m)@ == old(m)@.insert(key@, value@),
{
    m.insert(key.to_owned(), value.to_owned());
}

/// The table of built-in abbreviations.
pub fn builtin_abbrev_map() -> (m: AbbrevMap)
    ensures
        m@ == builtin_abbrevs(),
{
    let mut m = AbbrevMap::new();
    add_abbrev(&mut m, "gco", "git checkout ");
    add_abbrev(&mut m, "gst", "git status ");
    add_abbrev(&mut m, "gci", "git commit ");
    add_abbrev(&mut m, "gbr", "git branch ");
    add_abbrev(&mut m, "glog", "git log ");
    add_abbrev(&mut m, "gdiff", "git diff ");
    add_abbrev(&mut m, "gadd", "git add ");
    add_abbrev(&mut m, "gpush", "git push ");
    add_abbrev(&mut m, "gpull", "git pull ");
    add_abbrev(&mut m, "gmerge", "git merge ");
    add_abbrev(&mut m, "gfetch", "git fetch ");
    add_abbrev(&mut m, "gshow", "git show ");
    add_abbrev(&mut m, "grebase", "git rebase ");
    add_abbrev(&mut m, "greset", "git reset ");
    add_abbrev(&mut m, "ll", "ls -la ");
    add_abbrev(&mut m, "la", "ls -la ");
    m
}

/// The built-in abbreviations, overridden and extended by the user's.
pub fn merged_abbrev_map(user: &AbbrevMap) -> (m: AbbrevMap)
    ensures
        m@ == builtin_abbrevs().union_prefer_right(user@),
{
    let mut m = builtin_abbrev_map();
    let n = user.entries.len();
    let mut i: usize = 0;
    assert(user.entries@.take(0) =~= Seq::<(String, String)>::empty());
    assert(builtin_abbrevs().union_prefer_right(Map::empty()) =~= builtin_abbrevs());
    while i < n
        invariant
            n == user.entries@.len(),
            i <= n,
            m@ == builtin_abbrevs().union_prefer_right(entries_map(user.entries@.take(i as int))),
        decreases n - i,
    {
        let key = user.entries[i].0.clone();
        let value = user.entries[i].1.clone();
        let ghost before = entries_map(user.entries@.take(i as int));
        m.insert(key, value);
        assert(user.entries@.take(i + 1).drop_last() =~= user.entries@.take(i as int));
        assert(user.entries@.take(i + 1).last() == user.entries@[i as int]);
        assert(builtin_abbrevs().union_prefer_right(before).insert(key@, value@)
            =~= builtin_abbrevs().union_prefer_right(before.insert(key@, value@)));
        i = i + 1;
    }
    assert(user.entries@.take(n as int) =~= user.entries@);
    m
}

/// In the merged map a user's abbreviation replaces the built-in one of the same name,
/// and every other built-in abbreviation stays.
pub proof fn lemma_user_abbrev_wins(user: Map<Seq<char>, Seq<char>>, word: Seq<char>)
    ensures
        user.contains_key(word) ==> builtin_abbrevs().union_prefer_right(user).contains_key(word)
            && builtin_abbrevs().union_prefer_right(user)[word] == user[word],
        !user.contains_key(word) && builtin_abbrevs().contains_key(word) ==> builtin_abbrevs().union_prefer_right(
            user,
        ).contains_key(word) && builtin_abbrevs().union_prefer_right(user)[word]
            == builtin_abbrevs()[word],
        !user.contains_key(word) && !builtin_abbrevs().contains_key(word)
            ==> !builtin_abbrevs().union_prefer_right(user).contains_key(word),
{
}

/// The expansion of a (trimmed) word.
pub fn expand_abbrev(word: &str, map: &AbbrevMap) -> (r: Option<String>)
    ensures
        match r {
            Some(v) => map@.contains_key(trim(word@)) && v@ == map@[trim(word@)],
            None => !map@.contains_key(trim(word@)),
        },
{
    let v = chars_of(word);
    let (a, b) = trim_bounds(&v, 0, v.len());
    assert(v@.subrange(0, v@.len() as int) =~= v@);
    let key = word.substring_char(a, b);
    match map.get(key) {
        Some(x) => Some(x.clone()),
        None => None,
    }
}

// ---------------------------------------------------------------------------
// First word of a suggestion
// ---------------------------------------------------------------------------

/// `(to_inject, rest)` for a suggestion suffix: its first word (with one space after it
/// when whitespace followed) and what comes after that whitespace. The word's length is
/// taken in bytes and then used to skip characters.
pub open spec fn split_first_word_spec(suffix: Seq<char>) -> (Seq<char>, Seq<char>) {
    let s = trim_start(suffix);
    let word = s.take(lead_while(s, non_ws_pred()) as int);
    let after = if utf8_len(word) <= s.len() {
        s.skip(utf8_len(word) as int)
    } else {
        Seq::empty()
    };
    let rest = trim_start(after);
    (if after != rest {
        word.push(' ')
    } else {
        word
    }, rest)
}

pub fn split_first_word(suffix: &str) -> (r: (String, String))
    ensures
        (r.0@, r.1@) == split_first_word_spec(suffix@),
{
    let v = chars_of(suffix);
    let n = v.len();
    let a = skip_ws_forward(&v, 0, n);
    assert(v@.subrange(0, n as int) =~= v@);
    let ghost s = v@.subrange(a as int, n as int);
    let e = skip_non_ws_forward(&v, a, n);
    let ghost word = s.take(lead_while(s, non_ws_pred()) as int);
    assert(word =~= v@.subrange(a as int, e as int));
    // byte length of the word, saturated at usize::MAX
    let mut k = a;
    let mut bytes: usize = 0;
    while k < e
        invariant
            a <= k <= e <= n == v@.len(),
            word == v@.subrange(a as int, e as int),
            bytes as int == if utf8_len(v@.subrange(a as int, k as int)) <= usize::MAX {
                utf8_len(v@.subrange(a as int, k as int)) as int
            } else {
                usize::MAX as int
            },
        decreases e - k,
    {
        let w = utf8_width(v[k]);
        proof {
            assert(v@.subrange(a as int, k + 1).drop_last() =~= v@.subrange(a as int, k as int));
        }
        if bytes > usize::MAX - w {
            bytes = usize::MAX;
        } else {
            bytes = bytes + w;
        }
        k = k + 1;
    }
    let after = if bytes <= n - a {
        a + bytes
    } else {
        n
    };
    proof {
        if utf8_len(word) <= s.len() {
            assert(s.skip(utf8_len(word) as int) =~= v@.subrange(after as int, n as int));
        } else {
            assert(v@.subrange(after as int, n as int) =~= Seq::<char>::empty());
        }
    }
    let b = skip_ws_forward(&v, after, n);
    let mut word_s = string_of_range(&v, a, e);
    let rest = string_of_range(&v, b, n);
    if b != after {
        proof {
            assert(v@.subrange(after as int, n as int)[0] == v@[after as int]);
            assert(v@.subrange(after as int, n as int) != v@.subrange(b as int, n as int)) by {
                if v@.subrange(after as int, n as int) == v@.subrange(b as int, n as int) {
                    assert(v@.subrange(after as int, n as int).len() == v@.subrange(
                        b as int,
                        n as int,
                    ).len());
                }
            }
        }
        word_s.push(' ');
    } else {
        assert(v@.subrange(after as int, n as int) == v@.subrange(b as int, n as int));
    }
    (word_s, rest)
}

/// When the first word is ASCII, the word, the whitespace after it and the rest make up
/// the trimmed suffix, and a space is added exactly when whitespace followed the word.
pub proof fn lemma_split_first_word_rebuilds(suffix: Seq<char>)
    requires
        ({
            let s = trim_start(suffix);
            let word = s.take(lead_while(s, non_ws_pred()) as int);
            utf8_len(word) == word.len()
        }),
    ensures
        ({
            let s = trim_start(suffix);
            let word = s.take(lead_while(s, non_ws_pred()) as int);
            let (inject, rest) = split_first_word_spec(suffix);
            exists|gap: Seq<char>|
                (forall|k: int| 0 <= k < gap.len() ==> is_ws(#[trigger] gap[k])) && s == word
                    + gap + rest && (inject == if gap.len() > 0 {
                    word.push(' ')
                } else {
                    word
                })
        }),
{
    let s = trim_start(suffix);
    lemma_lead_while(s, non_ws_pred());
    let word = s.take(lead_while(s, non_ws_pred()) as int);
    let after = s.skip(word.len() as int);
    lemma_trim_start_split(after);
    let gap = after.take(lead_while(after, ws_pred()) as int);
    assert(s =~= word + after);
    assert(s =~= word + gap + trim_start(after));
    if gap.len() > 0 {
        assert(after.len() != trim_start(after).len());
    } else {
        assert(after =~= trim_start(after));
    }
}

// ---------------------------------------------------------------------------
// History suggestions
// ---------------------------------------------------------------------------

/// The history entry (trimmed) extends the typed command part.
pub open spec fn suggests(entry: Seq<char>, command_part: Seq<char>) -> bool {
    starts_with(trim(entry), command_part) && trim(entry).len() > command_part.len()
}

pub fn history_suggestion(history: &[String], command_part: &str) -> (r: Option<String>)
    ensures
        command_part@.len() == 0 ==> r is None,
        command_part@.len() > 0 ==> match r {
            Some(x) => exists|i: int|
                0 <= i < history@.len() && suggests(#[trigger] history@[i]@, command_part@) && (
                forall|j: int| 0 <= j < i ==> !suggests(history@[j]@, command_part@)) && x@
                    == trim(history@[i]@).skip(command_part@.len() as int),
            None => forall|i: int|
                0 <= i < history@.len() ==> !suggests(#[trigger] history@[i]@, command_part@),
        },
{
    let cp = chars_of(command_part);
    if cp.len() == 0 {
        return None;
    }
    let mut i: usize = 0;
    while i < history.len()
        invariant
            cp@ == command_part@,
            cp@.len() > 0,
            i <= history@.len(),
            forall|j: int| 0 <= j < i ==> !suggests(#[trigger] history@[j]@, command_part@),
        decreases history.len() - i,
    {
        let h = chars_of(history[i].as_str());
        let (a, b) = trim_bounds(&h, 0, h.len());
        assert(h@.subrange(0, h@.len() as int) =~= h@);
        if range_starts_with(&h, a, b, &cp) && b - a > cp.len() {
            let x = string_of_range(&h, a + cp.len(), b);
            assert(h@.subrange(a as int, b as int).skip(cp@.len() as int) =~= h@.subrange(
                a + cp.len(),
                b as int,
            ));
            return Some(x);
        }
        i = i + 1;
    }
    None
}

/// A suggestion completes the command part to the (trimmed) history entry it came from.
pub proof fn lemma_suggestion_completes(entry: Seq<char>, command_part: Seq<char>)
    requires
        suggests(entry, command_part),
    ensures
        trim(entry) == command_part + trim(entry).skip(command_part.len() as int),
        trim(entry).skip(command_part.len() as int).len() > 0,
{
    assert(trim(entry) =~= trim(entry).subrange(0, command_part.len() as int) + trim(entry).skip(
        command_part.len() as int,
    ));
}

} // verus!
