//! What the AI box shows: texts cut to the room they have (by bytes, with an ellipsis),
//! the two content lines of each mode, and the entries of the pickers.

use vstd::prelude::*;
use crate::ai::{AiBackend, AiConfig, BackendChoice, EnvApiKeys};
use crate::ai_bar::{
    gemini_models, groq_models, mode_wf, on_key_spec, removable, ActionView, AiMode, BarKey,
    ConfigApiStep, ModeView, StepView,
};
use crate::layout::{byte_len, str_byte_len};
use crate::screen::sat_sub;
use crate::text::{
    chars_of, concat_str, is_char_boundary, string_of_range, strings_view, utf8_len, utf8_width,
};

verus! {

// ---------------------------------------------------------------------------
// Byte offsets
// ---------------------------------------------------------------------------

/// Number of characters of `s` in its first `b` bytes (when `b` falls between characters).
pub open spec fn chars_in_bytes(s: Seq<char>, b: int) -> int {
    choose|k: int| 0 <= k <= s.len() && utf8_len(#[trigger] s.take(k)) == b
}

/// `&s[..b]`.
pub open spec fn byte_prefix(s: Seq<char>, b: int) -> Seq<char> {
    s.take(chars_in_bytes(s, b))
}

/// `&s[b..]`.
pub open spec fn byte_suffix(s: Seq<char>, b: int) -> Seq<char> {
    s.skip(chars_in_bytes(s, b))
}

/// Longer prefixes take more bytes.
proof fn lemma_take_bytes_grow(s: Seq<char>, i: int, j: int)
    requires
        0 <= i < j <= s.len(),
    ensures
        utf8_len(s.take(i)) < utf8_len(s.take(j)),
    decreases j - i,
{
    assert(s.take(j).drop_last() =~= s.take(j - 1));
    if i < j - 1 {
        lemma_take_bytes_grow(s, i, j - 1);
    }
}

/// The place of byte offset `b` in `v`, counted in characters; `None` when `b` falls
/// inside a character or past the end.
fn char_index_of_byte(v: &Vec<char>, b: usize) -> (r: Option<usize>)
    ensures
        match r {
            Some(k) => is_char_boundary(v@, b as int) && k == chars_in_bytes(v@, b as int) && k
                <= v@.len() && utf8_len(v@.take(k as int)) == b,
            None => !is_char_boundary(v@, b as int),
        },
{
    let mut k: usize = 0;
    let mut acc: usize = 0;
    while k < v.len() && acc < b
        invariant
            k <= v@.len(),
            acc == utf8_len(v@.take(k as int)),
            acc <= b,
        decreases v@.len() - k,
    {
        let w = utf8_width(v[k]);
        assert(v@.take(k + 1).drop_last() =~= v@.take(k as int));
        if w > b - acc {
            proof {
                assert forall|k2: int| 0 <= k2 <= v@.len() implies utf8_len(#[trigger] v@.take(k2)) != b by {
                    if k2 < k + 1 {
                        if k2 < k {
                            lemma_take_bytes_grow(v@, k2, k as int);
                        }
                    } else if k2 > k + 1 {
                        lemma_take_bytes_grow(v@, k + 1, k2);
                    }
                }
            }
            return None;
        }
        acc = acc + w;
        k = k + 1;
    }
    if acc == b {
        proof {
            let c = chars_in_bytes(v@, b as int);
            assert(utf8_len(v@.take(k as int)) == b);
            if c < k {
                lemma_take_bytes_grow(v@, c, k as int);
            } else if c > k {
                lemma_take_bytes_grow(v@, k as int, c);
            }
        }
        Some(k)
    } else {
        proof {
            assert forall|k2: int| 0 <= k2 <= v@.len() implies utf8_len(#[trigger] v@.take(k2)) != b by {
                if k2 < k {
                    lemma_take_bytes_grow(v@, k2, k as int);
                }
            }
        }
        None
    }
}

/// Byte offset `b` falls between two characters of `s` (`str::is_char_boundary`, also
/// false past the end).
pub fn byte_boundary(s: &str, b: usize) -> (r: bool)
    ensures
        r == is_char_boundary(s@, b as int),
{
    let v = chars_of(s);
    char_index_of_byte(&v, b).is_some()
}

// ---------------------------------------------------------------------------
// Clipping
// ---------------------------------------------------------------------------

/// `s` in the room of `max` bytes: its first `keep` bytes and an ellipsis when it is
/// longer than `max` bytes, else all of it.
pub open spec fn clipped(s: Seq<char>, max: nat, keep: nat) -> Seq<char> {
    if byte_len(s) > max {
        byte_prefix(s, keep as int) + "\u{2026}"@
    } else {
        s
    }
}

/// Cutting `s` to `keep` bytes would slice inside a character (or past its end).
pub open spec fn clip_panics(s: Seq<char>, max: nat, keep: nat) -> bool {
    byte_len(s) > max && !is_char_boundary(s, keep as int)
}

/// Shows `s` in the room of `max` bytes: cut to its first `keep` bytes with an ellipsis
/// when longer.
pub fn clip_text(s: &str, max: usize, keep: usize) -> (r: String)
    requires
        !clip_panics(s@, max as nat, keep as nat),
    ensures
        r@ == clipped(s@, max as nat, keep as nat),
{
    if str_byte_len(s) > max {
        let v = chars_of(s);
        match char_index_of_byte(&v, keep) {
            Some(k) => {
                let mut r = string_of_range(&v, 0, k);
                r.push('\u{2026}');
                proof {
                    reveal_strlit("\u{2026}");
                    assert(v@.subrange(0, k as int) =~= v@.take(k as int));
                    assert(r@ =~= v@.take(k as int) + "\u{2026}"@);
                }
                r
            },
            None => {
                proof {
                    assert(false);
                }
                String::new()
            },
        }
    } else {
        s.to_owned()
    }
}

pub fn clip_would_panic(s: &str, max: usize, keep: usize) -> (b: bool)
    ensures
        b == clip_panics(s@, max as nat, keep as nat),
{
    str_byte_len(s) > max && !byte_boundary(s, keep)
}

/// `s` in the room of `max` bytes, keeping its end: its last `max - 1` bytes followed by
/// an ellipsis when longer (how the prompt line shows a long prompt).
pub open spec fn end_clipped(s: Seq<char>, max: nat) -> Seq<char> {
    if byte_len(s) > max {
        byte_suffix(s, sat_sub(byte_len(s), sat_sub(max, 1)) as int) + "\u{2026}"@
    } else {
        s
    }
}

pub open spec fn end_clip_panics(s: Seq<char>, max: nat) -> bool {
    byte_len(s) > max && !is_char_boundary(s, sat_sub(byte_len(s), sat_sub(max, 1)) as int)
}

pub fn end_clip_text(s: &str, max: usize) -> (r: String)
    requires
        !end_clip_panics(s@, max as nat),
    ensures
        r@ == end_clipped(s@, max as nat),
{
    let n = str_byte_len(s);
    if n > max {
        let v = chars_of(s);
        let keep_from = n - (if max >= 1 {
            max - 1
        } else {
            0
        });
        match char_index_of_byte(&v, keep_from) {
            Some(k) => {
                let mut r = string_of_range(&v, k, v.len());
                r.push('\u{2026}');
                proof {
                    reveal_strlit("\u{2026}");
                    assert(v@.subrange(k as int, v@.len() as int) =~= v@.skip(k as int));
                    assert(r@ =~= v@.skip(k as int) + "\u{2026}"@);
                }
                r
            },
            None => {
                proof {
                    assert(false);
                }
                String::new()
            },
        }
    } else {
        s.to_owned()
    }
}

pub fn end_clip_would_panic(s: &str, max: usize) -> (b: bool)
    ensures
        b == end_clip_panics(s@, max as nat),
{
    let n = str_byte_len(s);
    n > max && !byte_boundary(
        s,
        n - (if max >= 1 {
            max - 1
        } else {
            0
        }),
    )
}

// ---------------------------------------------------------------------------
// Content of the AI box
// ---------------------------------------------------------------------------

/// The box's first content line, its second (dimmed) line, and whether the first is the
/// empty prompt's placeholder, in mode `m` with `inner` columns inside the border and
/// `model` the "backend · model" label in use.
pub open spec fn bar_lines_spec(m: ModeView, inner: nat, model: Option<Seq<char>>) -> (
    Seq<char>,
    Seq<char>,
    bool,
) {
    match m {
        ModeView::PromptInput(buf) => (
            "  \u{203a} "@ + end_clipped(buf, sat_sub(inner, 6)) + "_"@,
            match model {
                Some(l) => clipped("  model: "@ + l, inner, sat_sub(inner, 1)),
                None => Seq::empty(),
            },
            buf.len() == 0,
        ),
        ModeView::Thinking => ("  Thinking\u{2026}"@, Seq::empty(), false),
        ModeView::SuggestionReady(cmd) => (
            "  "@ + clipped(cmd, sat_sub(inner, 4), sat_sub(sat_sub(inner, 4), 1)),
            "  Enter run \u{b7} Esc dismiss"@,
            false,
        ),
        ModeView::Error(msg) => (
            "  "@ + clipped(msg, sat_sub(inner, 10), sat_sub(sat_sub(inner, 10), 1)),
            "  Esc to close"@,
            false,
        ),
        ModeView::RemoveApiPicker(_, _) => (Seq::empty(), "  Enter remove \u{b7} Esc cancel"@, false),
        ModeView::ConfigApiWizard(StepView::EnterKey(p, key)) => (
            "  API key for "@ + p.display_name() + ": "@ + key + "_"@,
            "  Enter save \u{b7} Esc cancel"@,
            false,
        ),
        ModeView::ConfigApiWizard(StepView::Done(msg)) => (
            "  "@ + clipped(msg, sat_sub(inner, 4), sat_sub(inner, 4)),
            "  Enter to close"@,
            false,
        ),
        _ => (Seq::empty(), "  Enter select \u{b7} Esc cancel"@, false),
    }
}

/// Drawing mode `m` would slice a text inside a character, or the bar is closed.
pub open spec fn bar_lines_panic(m: ModeView, inner: nat, model: Option<Seq<char>>) -> bool {
    match m {
        ModeView::Idle => true,
        ModeView::PromptInput(buf) => end_clip_panics(buf, sat_sub(inner, 6)) || match model {
            Some(l) => clip_panics("  model: "@ + l, inner, sat_sub(inner, 1)),
            None => false,
        },
        ModeView::SuggestionReady(cmd) => clip_panics(cmd, sat_sub(inner, 4), sat_sub(sat_sub(inner, 4), 1)),
        ModeView::Error(msg) => clip_panics(msg, sat_sub(inner, 10), sat_sub(sat_sub(inner, 10), 1)),
        ModeView::ConfigApiWizard(StepView::Done(msg)) => clip_panics(
            msg,
            sat_sub(inner, 4),
            sat_sub(inner, 4),
        ),
        _ => false,
    }
}

pub open spec fn opt_str_view(o: Option<&str>) -> Option<Seq<char>> {
    match o {
        Some(s) => Some(s@),
        None => None,
    }
}

fn dec(n: usize, k: usize) -> (r: usize)
    ensures
        r == sat_sub(n as nat, k as nat),
{
    if n >= k {
        n - k
    } else {
        0
    }
}

/// The two content lines of the AI box (and whether the first is the placeholder).
pub fn bar_lines(mode: &AiMode, inner: usize, model: Option<&str>) -> (r: (String, String, bool))
    requires
        !bar_lines_panic(mode@, inner as nat, opt_str_view(model)),
    ensures
        (r.0@, r.1@, r.2) == bar_lines_spec(mode@, inner as nat, opt_str_view(model)),
{
    match mode {
        AiMode::PromptInput { buffer } => {
            let mut l1 = "  \u{203a} ".to_owned();
            l1.append(end_clip_text(buffer.as_str(), dec(inner, 6)).as_str());
            l1.push('_');
            let l2 = match model {
                Some(l) => clip_text(concat_str("  model: ", l).as_str(), inner, dec(inner, 1)),
                None => String::new(),
            };
            proof {
                reveal_strlit("_");
                assert(l1@ =~= "  \u{203a} "@ + end_clipped(buffer@, sat_sub(inner as nat, 6)) + "_"@);
            }
            (l1, l2, buffer.unicode_len() == 0)
        },
        AiMode::Thinking => ("  Thinking\u{2026}".to_owned(), String::new(), false),
        AiMode::SuggestionReady { command } => {
            let max = dec(inner, 4);
            (
                concat_str("  ", clip_text(command.as_str(), max, dec(max, 1)).as_str()),
                "  Enter run \u{b7} Esc dismiss".to_owned(),
                false,
            )
        },
        AiMode::Error { message } => {
            let max = dec(inner, 10);
            (
                concat_str("  ", clip_text(message.as_str(), max, dec(max, 1)).as_str()),
                "  Esc to close".to_owned(),
                false,
            )
        },
        AiMode::RemoveApiPicker { .. } => (
            String::new(),
            "  Enter remove \u{b7} Esc cancel".to_owned(),
            false,
        ),
        AiMode::ConfigApiWizard { step } => match step {
            ConfigApiStep::EnterKey { provider, key_buffer } => {
                let mut l1 = concat_str("  API key for ", provider.name());
                l1.append(": ");
                l1.append(key_buffer.as_str());
                l1.push('_');
                proof {
                    reveal_strlit("_");
                    assert(l1@ =~= "  API key for "@ + provider.display_name() + ": "@ + key_buffer@
                        + "_"@);
                }
                (l1, "  Enter save \u{b7} Esc cancel".to_owned(), false)
            },
            ConfigApiStep::Done { message } => {
                let max = dec(inner, 4);
                (
                    concat_str("  ", clip_text(message.as_str(), max, max).as_str()),
                    "  Enter to close".to_owned(),
                    false,
                )
            },
            ConfigApiStep::ChooseProvider { .. } => (
                String::new(),
                "  Enter select \u{b7} Esc cancel".to_owned(),
                false,
            ),
        },
        AiMode::BackendPicker { .. } | AiMode::ModelPicker { .. } => (
            String::new(),
            "  Enter select \u{b7} Esc cancel".to_owned(),
            false,
        ),
        AiMode::Idle => {
            proof {
                assert(false);
            }
            (String::new(), String::new(), false)
        },
    }
}

/// Drawing `mode` would slice a text inside a character (or the bar is closed).
pub fn bar_lines_would_panic(mode: &AiMode, inner: usize, model: Option<&str>) -> (b: bool)
    ensures
        b == bar_lines_panic(mode@, inner as nat, opt_str_view(model)),
{
    match mode {
        AiMode::Idle => true,
        AiMode::PromptInput { buffer } => end_clip_would_panic(buffer.as_str(), dec(inner, 6)) || match model {
            Some(l) => clip_would_panic(concat_str("  model: ", l).as_str(), inner, dec(inner, 1)),
            None => false,
        },
        AiMode::SuggestionReady { command } => {
            let max = dec(inner, 4);
            clip_would_panic(command.as_str(), max, dec(max, 1))
        },
        AiMode::Error { message } => {
            let max = dec(inner, 10);
            clip_would_panic(message.as_str(), max, dec(max, 1))
        },
        AiMode::ConfigApiWizard { step: ConfigApiStep::Done { message } } => {
            let max = dec(inner, 4);
            clip_would_panic(message.as_str(), max, max)
        },
        _ => false,
    }
}

/// The name a picker shows for a backend choice.
pub open spec fn choice_label(c: BackendChoice) -> Seq<char> {
    match c {
        BackendChoice::Backend(b) => b.display_name(),
        BackendChoice::ConfigureApi => "Configure API"@,
        BackendChoice::RemoveApi => "Remove API"@,
    }
}

/// A picker's entries, its selected entry and its footer, in mode `m` (`None` when `m`
/// is no picker).
pub open spec fn picker_spec(m: ModeView) -> Option<(Seq<Seq<char>>, nat, Seq<char>)> {
    match m {
        ModeView::BackendPicker(cs, s) => Some(
            (cs.map_values(|c: BackendChoice| choice_label(c)), s, "  Enter select \u{b7} Esc cancel"@),
        ),
        ModeView::RemoveApiPicker(bs, s) => Some(
            (bs.map_values(|b: AiBackend| b.display_name()), s, "  Enter remove \u{b7} Esc cancel"@),
        ),
        ModeView::ConfigApiWizard(StepView::ChooseProvider(s)) => Some(
            (seq!["OpenAI"@, "Gemini"@, "Groq"@], s, "  Enter select \u{b7} Esc cancel"@),
        ),
        ModeView::ModelPicker(_, ms, s) => Some((ms, s, "  Enter select \u{b7} Esc cancel"@)),
        _ => None,
    }
}

fn choice_name(c: &BackendChoice) -> (s: &'static str)
    ensures
        s@ == choice_label(*c),
{
    match c {
        BackendChoice::Backend(b) => b.name(),
        BackendChoice::ConfigureApi => "Configure API",
        BackendChoice::RemoveApi => "Remove API",
    }
}

/// The entries, selection and footer of the picker shown in `mode`.
pub fn picker_labels(mode: &AiMode) -> (r: Option<(Vec<String>, usize, &'static str)>)
    ensures
        match r {
            Some((l, s, f)) => picker_spec(mode@) == Some((strings_view(l@), s as nat, f@)),
            None => picker_spec(mode@) is None,
        },
{
    match mode {
        AiMode::BackendPicker { choices, selected } => {
            let mut l: Vec<String> = Vec::new();
            let mut i: usize = 0;
            while i < choices.len()
                invariant
                    i <= choices@.len(),
                    l@.len() == i,
                    strings_view(l@) == choices@.take(i as int).map_values(
                        |c: BackendChoice| choice_label(c),
                    ),
                decreases choices.len() - i,
            {
                let ghost before = l@;
                l.push(choice_name(&choices[i]).to_owned());
                proof {
                    let want = choices@.take(i + 1).map_values(|c: BackendChoice| choice_label(c));
                    assert forall|j: int| 0 <= j < i + 1 implies #[trigger] strings_view(l@)[j]
                        == want[j] by {
                        if j < i {
                            assert(l@[j] == before[j]);
                            assert(strings_view(before)[j] == before[j]@);
                        }
                    }
                    assert(strings_view(l@) =~= want);
                }
                i = i + 1;
            }
            assert(choices@.take(choices@.len() as int) =~= choices@);
            Some((l, *selected, "  Enter select \u{b7} Esc cancel"))
        },
        AiMode::RemoveApiPicker { backends, selected } => {
            let mut l: Vec<String> = Vec::new();
            let mut i: usize = 0;
            while i < backends.len()
                invariant
                    i <= backends@.len(),
                    l@.len() == i,
                    strings_view(l@) == backends@.take(i as int).map_values(
                        |b: AiBackend| b.display_name(),
                    ),
                decreases backends.len() - i,
            {
                let ghost before = l@;
                l.push(backends[i].name().to_owned());
                proof {
                    let want = backends@.take(i + 1).map_values(|b: AiBackend| b.display_name());
                    assert forall|j: int| 0 <= j < i + 1 implies #[trigger] strings_view(l@)[j]
                        == want[j] by {
                        if j < i {
                            assert(l@[j] == before[j]);
                            assert(strings_view(before)[j] == before[j]@);
                        }
                    }
                    assert(strings_view(l@) =~= want);
                }
                i = i + 1;
            }
            assert(backends@.take(backends@.len() as int) =~= backends@);
            Some((l, *selected, "  Enter remove \u{b7} Esc cancel"))
        },
        AiMode::ConfigApiWizard { step: ConfigApiStep::ChooseProvider { selected } } => {
            let l = vec!["OpenAI".to_owned(), "Gemini".to_owned(), "Groq".to_owned()];
            assert(strings_view(l@) =~= seq!["OpenAI"@, "Gemini"@, "Groq"@]);
            Some((l, *selected, "  Enter select \u{b7} Esc cancel"))
        },
        AiMode::ModelPicker { models, selected, .. } => {
            let mut l: Vec<String> = Vec::new();
            let mut i: usize = 0;
            while i < models.len()
                invariant
                    i <= models@.len(),
                    l@.len() == i,
                    strings_view(l@) == strings_view(models@.take(i as int)),
                decreases models.len() - i,
            {
                let ghost before = l@;
                l.push(models[i].clone());
                proof {
                    let want = strings_view(models@.take(i + 1));
                    assert forall|j: int| 0 <= j < i + 1 implies #[trigger] strings_view(l@)[j]
                        == want[j] by {
                        if j < i {
                            assert(l@[j] == before[j]);
                            assert(strings_view(before)[j] == before[j]@);
                            assert(strings_view(models@.take(i as int))[j] == models@[j]@);
                        }
                    }
                    assert(strings_view(l@) =~= want);
                }
                i = i + 1;
            }
            assert(models@.take(models@.len() as int) =~= models@);
            Some((l, *selected, "  Enter select \u{b7} Esc cancel"))
        },
        _ => None,
    }
}


/// Enter on the Configure API provider list starts key entry, with an empty key, for the
/// provider shown on the selected row: OpenAI, Gemini and Groq in that order, the order of
/// the list's labels.
pub proof fn lemma_wizard_enter_picks_shown_provider(
    s: nat,
    config: AiConfig,
    env: EnvApiKeys,
)
    requires
        s <= 2,
    ensures
        ({
            let m = ModeView::ConfigApiWizard(StepView::ChooseProvider(s));
            let next = on_key_spec(m, BarKey::Enter, config, env).0;
            let b = seq![AiBackend::OpenAi, AiBackend::Gemini, AiBackend::Groq][s as int];
            &&& next == ModeView::ConfigApiWizard(StepView::EnterKey(b, Seq::empty()))
            &&& picker_spec(m) is Some
            &&& picker_spec(m).unwrap().1 == s
            &&& picker_spec(m).unwrap().0.len() == 3
            &&& picker_spec(m).unwrap().0[s as int] == b.display_name()
        }),
{
}


/// Different backend choices are shown under different names.
proof fn lemma_choice_labels_differ(a: BackendChoice, b: BackendChoice)
    requires
        choice_label(a) == choice_label(b),
    ensures
        a == b,
{
    reveal_strlit("Ollama");
    reveal_strlit("OpenAI");
    reveal_strlit("Gemini");
    reveal_strlit("Groq");
    reveal_strlit("Configure API");
    reveal_strlit("Remove API");
    assert("Ollama"@.len() == 6 && "Ollama"@[0] == 'O' && "Ollama"@[1] == 'l');
    assert("OpenAI"@.len() == 6 && "OpenAI"@[0] == 'O' && "OpenAI"@[1] == 'p');
    assert("Gemini"@.len() == 6 && "Gemini"@[0] == 'G');
    assert("Groq"@.len() == 4);
    assert("Configure API"@.len() == 13);
    assert("Remove API"@.len() == 10);
    let x = choice_label(a);
    let y = choice_label(b);
    assert(x.len() == y.len());
    if x.len() == 6 {
        assert(x[0] == y[0]);
        assert(x[1] == y[1]);
    }
}

/// Enter on a picker acts on the entry shown at the selected row: a model picker uses the
/// model shown, the Remove API picker removes the key of the provider shown, and the backend
/// picker opens the Configure API wizard, the Remove API list, the model list of the backend
/// shown (Gemini and Groq have fixed lists), or asks for the models of the backend shown.
pub proof fn lemma_enter_acts_on_shown_entry(m: ModeView, config: AiConfig, env: EnvApiKeys)
    requires
        mode_wf(m),
        picker_spec(m) is Some,
        picker_spec(m).unwrap().0.len() > 0,
    ensures
        ({
            let shown = picker_spec(m).unwrap().0[picker_spec(m).unwrap().1 as int];
            let r = on_key_spec(m, BarKey::Enter, config, env);
            &&& (m matches ModeView::ModelPicker(b, _, _) ==> r == (
                ModeView::Idle,
                ActionView::UseModel(b, shown),
            ))
            &&& (m is RemoveApiPicker ==> r.0 == m && (r.1 matches ActionView::RemoveKey(b)
                && b.display_name() == shown))
            &&& (m is BackendPicker ==> {
                &&& shown == "Configure API"@ ==> r == (
                    ModeView::ConfigApiWizard(StepView::ChooseProvider(0)),
                    ActionView::Nothing,
                )
                &&& shown == "Remove API"@ ==> r == (
                    ModeView::RemoveApiPicker(removable(config, env), 0),
                    ActionView::Nothing,
                )
                &&& shown == AiBackend::Gemini.display_name() ==> r == (
                    ModeView::ModelPicker(AiBackend::Gemini, gemini_models(), 0),
                    ActionView::Nothing,
                )
                &&& shown == AiBackend::Groq.display_name() ==> r == (
                    ModeView::ModelPicker(AiBackend::Groq, groq_models(), 0),
                    ActionView::Nothing,
                )
                &&& shown == AiBackend::Ollama.display_name() ==> r == (
                    m,
                    ActionView::ListModels(AiBackend::Ollama),
                )
                &&& shown == AiBackend::OpenAi.display_name() ==> r == (
                    m,
                    ActionView::ListModels(AiBackend::OpenAi),
                )
            })
        }),
{
    if let ModeView::BackendPicker(cs, s) = m {
        let c = cs[s as int];
        assert(picker_spec(m).unwrap().0[s as int] == choice_label(c));
        let shown = choice_label(c);
        if shown == "Configure API"@ {
            lemma_choice_labels_differ(c, BackendChoice::ConfigureApi);
        }
        if shown == "Remove API"@ {
            lemma_choice_labels_differ(c, BackendChoice::RemoveApi);
        }
        if shown == AiBackend::Gemini.display_name() {
            lemma_choice_labels_differ(c, BackendChoice::Backend(AiBackend::Gemini));
        }
        if shown == AiBackend::Groq.display_name() {
            lemma_choice_labels_differ(c, BackendChoice::Backend(AiBackend::Groq));
        }
        if shown == AiBackend::Ollama.display_name() {
            lemma_choice_labels_differ(c, BackendChoice::Backend(AiBackend::Ollama));
        }
        if shown == AiBackend::OpenAi.display_name() {
            lemma_choice_labels_differ(c, BackendChoice::Backend(AiBackend::OpenAi));
        }
    }
    if let ModeView::RemoveApiPicker(bs, s) = m {
        assert(picker_spec(m).unwrap().0[s as int] == bs[s as int].display_name());
    }
}

} // verus!
