//! The AI command bar as a state machine: each key (or finished piece of outside work)
//! gives the next mode and the work to do next (list backends or models, start a
//! generation, run a command, save or remove a key).

use vstd::prelude::*;
use crate::ai::{
    clone_opt_string, configured_api_backends, gemini_list_models, groq_list_models, text_is,
    AiBackend, AiConfig, BackendChoice, EnvApiKeys, seq_if,
};
use crate::screen::sat_dec;
use crate::text::{
    chars_of, concat_str, is_ws, lemma_outer_whitespace_removed_is_trim,
    lemma_trim_removes_outer_whitespace, outer_whitespace_removed, string_of_range, strings_view,
    trim, trim_bounds,
};

verus! {

/// Step in the Configure API wizard.
pub enum ConfigApiStep {
    ChooseProvider { selected: usize },
    EnterKey { provider: AiBackend, key_buffer: String },
    Done { message: String },
}

/// What the AI bar shows.
pub enum AiMode {
    Idle,
    PromptInput { buffer: String },
    Thinking,
    SuggestionReady { command: String },
    Error { message: String },
    BackendPicker { choices: Vec<BackendChoice>, selected: usize },
    ModelPicker { backend: AiBackend, models: Vec<String>, selected: usize },
    ConfigApiWizard { step: ConfigApiStep },
    RemoveApiPicker { backends: Vec<AiBackend>, selected: usize },
}

/// A key as the AI bar sees it.
#[derive(Clone, Copy, Debug, PartialEq, Eq, Structural)]
pub enum BarKey {
    Char(char),
    Backspace,
    Enter,
    Esc,
    Up,
    Down,
    Other,
}

/// Work for the front end to do after a key.
pub enum AiAction {
    Nothing,
    /// List the backends (this lists Ollama's models), then call `backends_listed`.
    ListBackends,
    /// Generate a command for the prompt, then call `generation_finished`.
    Generate { prompt: String },
    /// Type the command into the shell and run it.
    RunCommand { command: String },
    /// List the backend's models, then call `models_listed`.
    ListModels { backend: AiBackend },
    /// Use this backend and model from now on.
    UseModel { backend: AiBackend, model: String },
    /// Remove the backend's key from the config file, then call `key_removed`.
    RemoveKey { backend: AiBackend },
    /// Save the key in the config file, then call `key_saved`.
    SaveKey { backend: AiBackend, key: String },
}

// ---------------------------------------------------------------------------
// Views
// ---------------------------------------------------------------------------

pub enum StepView {
    ChooseProvider(nat),
    EnterKey(AiBackend, Seq<char>),
    Done(Seq<char>),
}

pub enum ModeView {
    Idle,
    PromptInput(Seq<char>),
    Thinking,
    SuggestionReady(Seq<char>),
    Error(Seq<char>),
    BackendPicker(Seq<BackendChoice>, nat),
    ModelPicker(AiBackend, Seq<Seq<char>>, nat),
    ConfigApiWizard(StepView),
    RemoveApiPicker(Seq<AiBackend>, nat),
}

pub enum ActionView {
    Nothing,
    ListBackends,
    Generate(Seq<char>),
    RunCommand(Seq<char>),
    ListModels(AiBackend),
    UseModel(AiBackend, Seq<char>),
    RemoveKey(AiBackend),
    SaveKey(AiBackend, Seq<char>),
}

impl View for ConfigApiStep {
    type V = StepView;

    open spec fn view(&self) -> StepView {
        match self {
            ConfigApiStep::ChooseProvider { selected } => StepView::ChooseProvider(*selected as nat),
            ConfigApiStep::EnterKey { provider, key_buffer } => StepView::EnterKey(
                *provider,
                key_buffer@,
            ),
            ConfigApiStep::Done { message } => StepView::Done(message@),
        }
    }
}

impl View for AiMode {
    type V = ModeView;

    open spec fn view(&self) -> ModeView {
        match self {
            AiMode::Idle => ModeView::Idle,
            AiMode::PromptInput { buffer } => ModeView::PromptInput(buffer@),
            AiMode::Thinking => ModeView::Thinking,
            AiMode::SuggestionReady { command } => ModeView::SuggestionReady(command@),
            AiMode::Error { message } => ModeView::Error(message@),
            AiMode::BackendPicker { choices, selected } => ModeView::BackendPicker(
                choices@,
                *selected as nat,
            ),
            AiMode::ModelPicker { backend, models, selected } => ModeView::ModelPicker(
                *backend,
                strings_view(models@),
                *selected as nat,
            ),
            AiMode::ConfigApiWizard { step } => ModeView::ConfigApiWizard(step@),
            AiMode::RemoveApiPicker { backends, selected } => ModeView::RemoveApiPicker(
                backends@,
                *selected as nat,
            ),
        }
    }
}

impl View for AiAction {
    type V = ActionView;

    open spec fn view(&self) -> ActionView {
        match self {
            AiAction::Nothing => ActionView::Nothing,
            AiAction::ListBackends => ActionView::ListBackends,
            AiAction::Generate { prompt } => ActionView::Generate(prompt@),
            AiAction::RunCommand { command } => ActionView::RunCommand(command@),
            AiAction::ListModels { backend } => ActionView::ListModels(*backend),
            AiAction::UseModel { backend, model } => ActionView::UseModel(*backend, model@),
            AiAction::RemoveKey { backend } => ActionView::RemoveKey(*backend),
            AiAction::SaveKey { backend, key } => ActionView::SaveKey(*backend, key@),
        }
    }
}

// ---------------------------------------------------------------------------
// Transitions
// ---------------------------------------------------------------------------

/// `char::is_control`: the general category `Cc`.
pub open spec fn is_control_char(c: char) -> bool {
    c <= '\u{1f}' || ('\u{7f}' <= c && c <= '\u{9f}')
}

pub fn is_control(c: char) -> (b: bool)
    ensures
        b == is_control_char(c),
{
    c <= '\u{1f}' || ('\u{7f}' <= c && c <= '\u{9f}')
}

/// Text with its last character removed (unchanged when empty).
pub open spec fn backspaced(s: Seq<char>) -> Seq<char> {
    if s.len() > 0 {
        s.drop_last()
    } else {
        s
    }
}

/// The entry below the selected one, staying on the last.
pub open spec fn moved_down(selected: nat, len: nat) -> nat {
    if selected + 1 <= sat_dec(len) {
        selected + 1
    } else {
        sat_dec(len)
    }
}

/// The providers the wizard offers, in order.
pub open spec fn wizard_provider(i: nat) -> AiBackend {
    if i == 0 {
        AiBackend::OpenAi
    } else if i == 1 {
        AiBackend::Gemini
    } else {
        AiBackend::Groq
    }
}

pub open spec fn gemini_models() -> Seq<Seq<char>> {
    seq!["gemini-2.0-flash"@, "gemini-1.5-pro"@, "gemini-1.5-flash"@, "gemini-1.0-pro"@]
}

pub open spec fn groq_models() -> Seq<Seq<char>> {
    seq!["llama-3.3-70b-versatile"@, "llama-3.1-8b-instant"@, "mixtral-8x7b-32768"@]
}

/// The API backends with a key, as the "Remove API" picker lists them.
pub open spec fn removable(config: AiConfig, env: EnvApiKeys) -> Seq<AiBackend> {
    seq_if(config.configured(AiBackend::OpenAi, env), seq![AiBackend::OpenAi]) + seq_if(
        config.configured(AiBackend::Gemini, env),
        seq![AiBackend::Gemini],
    ) + seq_if(config.configured(AiBackend::Groq, env), seq![AiBackend::Groq])
}

/// Message when no key was typed.
pub open spec fn missing_key_message(p: AiBackend) -> Seq<char> {
    "Set "@ + p.key_variable() + " env var or add key in config."@
}

/// Every picker's selection is one of its entries (or 0 for an empty list), and the
/// wizard's is one of its three providers.
pub open spec fn mode_wf(m: ModeView) -> bool {
    match m {
        ModeView::BackendPicker(c, s) => s < c.len() || (c.len() == 0 && s == 0),
        ModeView::ModelPicker(_, ms, s) => s < ms.len() || (ms.len() == 0 && s == 0),
        ModeView::RemoveApiPicker(bs, s) => s < bs.len() || (bs.len() == 0 && s == 0),
        ModeView::ConfigApiWizard(StepView::ChooseProvider(s)) => s <= 2,
        _ => true,
    }
}

/// Enter on a picker with no entries (indexing the empty list panics).
pub open spec fn enter_on_empty_picker(m: ModeView) -> bool {
    match m {
        ModeView::BackendPicker(c, _) => c.len() == 0,
        ModeView::ModelPicker(_, ms, _) => ms.len() == 0,
        ModeView::RemoveApiPicker(bs, _) => bs.len() == 0,
        _ => false,
    }
}

/// The AI bar is open, and its box drawn, in every mode but `Idle`.
pub fn bar_is_drawn(mode: &AiMode) -> (b: bool)
    ensures
        b == (mode@ != ModeView::Idle),
{
    match mode {
        AiMode::Idle => false,
        _ => true,
    }
}

/// Enter in `mode` would pick from a picker with no entries.
pub fn enter_would_panic(mode: &AiMode) -> (b: bool)
    ensures
        b == enter_on_empty_picker(mode@),
{
    match mode {
        AiMode::BackendPicker { choices, .. } => choices.len() == 0,
        AiMode::ModelPicker { models, .. } => models.len() == 0,
        AiMode::RemoveApiPicker { backends, .. } => backends.len() == 0,
        _ => false,
    }
}

/// The next mode and the work to do when `key` is pressed in mode `m`.
pub open spec fn on_key_spec(m: ModeView, key: BarKey, config: AiConfig, env: EnvApiKeys) -> (
    ModeView,
    ActionView,
) {
    match m {
        ModeView::PromptInput(buf) => match key {
            BarKey::Char(c) => if !is_control_char(c) {
                (ModeView::PromptInput(buf.push(c)), ActionView::Nothing)
            } else {
                (m, ActionView::Nothing)
            },
            BarKey::Backspace => (ModeView::PromptInput(backspaced(buf)), ActionView::Nothing),
            BarKey::Enter => {
                let p = trim(buf);
                if p.len() == 0 {
                    (ModeView::Idle, ActionView::Nothing)
                } else if p == "/model"@ || p == "/models"@ {
                    (m, ActionView::ListBackends)
                } else {
                    (ModeView::Thinking, ActionView::Generate(p))
                }
            },
            BarKey::Esc => (ModeView::Idle, ActionView::Nothing),
            _ => (m, ActionView::Nothing),
        },
        ModeView::SuggestionReady(cmd) => match key {
            BarKey::Enter => (ModeView::Idle, ActionView::RunCommand(cmd)),
            BarKey::Esc => (ModeView::Idle, ActionView::Nothing),
            _ => (m, ActionView::Nothing),
        },
        ModeView::Error(_) => match key {
            BarKey::Enter | BarKey::Esc => (ModeView::Idle, ActionView::Nothing),
            _ => (m, ActionView::Nothing),
        },
        ModeView::BackendPicker(choices, s) => match key {
            BarKey::Up => (ModeView::BackendPicker(choices, sat_dec(s)), ActionView::Nothing),
            BarKey::Down => (
                ModeView::BackendPicker(choices, moved_down(s, choices.len())),
                ActionView::Nothing,
            ),
            BarKey::Enter => match choices[s as int] {
                BackendChoice::ConfigureApi => (
                    ModeView::ConfigApiWizard(StepView::ChooseProvider(0)),
                    ActionView::Nothing,
                ),
                BackendChoice::RemoveApi => (
                    ModeView::RemoveApiPicker(removable(config, env), 0),
                    ActionView::Nothing,
                ),
                BackendChoice::Backend(b) => match b {
                    AiBackend::Gemini => (
                        ModeView::ModelPicker(AiBackend::Gemini, gemini_models(), 0),
                        ActionView::Nothing,
                    ),
                    AiBackend::Groq => (
                        ModeView::ModelPicker(AiBackend::Groq, groq_models(), 0),
                        ActionView::Nothing,
                    ),
                    _ => (m, ActionView::ListModels(b)),
                },
            },
            BarKey::Esc => (ModeView::Idle, ActionView::Nothing),
            _ => (m, ActionView::Nothing),
        },
        ModeView::ModelPicker(b, models, s) => match key {
            BarKey::Up => (ModeView::ModelPicker(b, models, sat_dec(s)), ActionView::Nothing),
            BarKey::Down => (
                ModeView::ModelPicker(b, models, moved_down(s, models.len())),
                ActionView::Nothing,
            ),
            BarKey::Enter => (ModeView::Idle, ActionView::UseModel(b, models[s as int])),
            BarKey::Esc => (ModeView::Idle, ActionView::Nothing),
            _ => (m, ActionView::Nothing),
        },
        ModeView::RemoveApiPicker(bs, s) => match key {
            BarKey::Up => (ModeView::RemoveApiPicker(bs, sat_dec(s)), ActionView::Nothing),
            BarKey::Down => (
                ModeView::RemoveApiPicker(bs, moved_down(s, bs.len())),
                ActionView::Nothing,
            ),
            BarKey::Enter => (m, ActionView::RemoveKey(bs[s as int])),
            BarKey::Esc => (ModeView::Idle, ActionView::Nothing),
            _ => (m, ActionView::Nothing),
        },
        ModeView::ConfigApiWizard(step) => match step {
            StepView::ChooseProvider(s) => match key {
                BarKey::Up => (
                    ModeView::ConfigApiWizard(StepView::ChooseProvider(sat_dec(s))),
                    ActionView::Nothing,
                ),
                BarKey::Down => (
                    ModeView::ConfigApiWizard(
                        StepView::ChooseProvider(
                            if s + 1 <= 2 {
                                s + 1
                            } else {
                                2
                            },
                        ),
                    ),
                    ActionView::Nothing,
                ),
                BarKey::Enter => (
                    ModeView::ConfigApiWizard(
                        StepView::EnterKey(wizard_provider(s), Seq::empty()),
                    ),
                    ActionView::Nothing,
                ),
                BarKey::Esc => (ModeView::Idle, ActionView::Nothing),
                _ => (m, ActionView::Nothing),
            },
            StepView::EnterKey(p, buf) => match key {
                BarKey::Char(c) => if !is_control_char(c) {
                    (
                        ModeView::ConfigApiWizard(StepView::EnterKey(p, buf.push(c))),
                        ActionView::Nothing,
                    )
                } else {
                    (m, ActionView::Nothing)
                },
                BarKey::Backspace => (
                    ModeView::ConfigApiWizard(StepView::EnterKey(p, backspaced(buf))),
                    ActionView::Nothing,
                ),
                BarKey::Enter => if trim(buf).len() == 0 {
                    (
                        ModeView::ConfigApiWizard(StepView::Done(missing_key_message(p))),
                        ActionView::Nothing,
                    )
                } else {
                    (m, ActionView::SaveKey(p, trim(buf)))
                },
                BarKey::Esc => (ModeView::Idle, ActionView::Nothing),
                _ => (m, ActionView::Nothing),
            },
            StepView::Done(_) => match key {
                BarKey::Enter | BarKey::Esc => (ModeView::Idle, ActionView::Nothing),
                _ => (m, ActionView::Nothing),
            },
        },
        _ => (m, ActionView::Nothing),
    }
}

fn trimmed_string(s: &String) -> (r: String)
    ensures
        r@ == trim(s@),
{
    let v = chars_of(s.as_str());
    let (a, b) = trim_bounds(&v, 0, v.len());
    assert(v@.subrange(0, v@.len() as int) =~= v@);
    string_of_range(&v, a, b)
}

fn down(selected: usize, len: usize) -> (r: usize)
    requires
        selected < len || selected == 0,
    ensures
        r == moved_down(selected as nat, len as nat),
{
    let last = if len == 0 {
        0
    } else {
        len - 1
    };
    if selected + 1 <= last {
        selected + 1
    } else {
        last
    }
}

fn up(selected: usize) -> (r: usize)
    ensures
        r == sat_dec(selected as nat),
{
    if selected == 0 {
        0
    } else {
        selected - 1
    }
}

/// The next mode, and the work to do, when `key` is pressed while the AI bar is open.
pub fn on_key(mode: AiMode, key: BarKey, config: &AiConfig, env: &EnvApiKeys) -> (r: (
    AiMode,
    AiAction,
))
    requires
        mode_wf(mode@),
        key == BarKey::Enter ==> !enter_on_empty_picker(mode@),
    ensures
        (r.0@, r.1@) == on_key_spec(mode@, key, *config, *env),
        mode_wf(r.0@),
{
    let ghost m = mode@;
    match mode {
        AiMode::PromptInput { mut buffer } => match key {
            BarKey::Char(c) => {
                if !is_control(c) {
                    buffer.push(c);
                }
                (AiMode::PromptInput { buffer }, AiAction::Nothing)
            },
            BarKey::Backspace => {
                let _ = buffer.pop();
                (AiMode::PromptInput { buffer }, AiAction::Nothing)
            },
            BarKey::Enter => {
                let prompt = trimmed_string(&buffer);
                let p = chars_of(prompt.as_str());
                if p.len() == 0 {
                    (AiMode::Idle, AiAction::Nothing)
                } else if text_is(&p, "/model") || text_is(&p, "/models") {
                    (AiMode::PromptInput { buffer }, AiAction::ListBackends)
                } else {
                    (AiMode::Thinking, AiAction::Generate { prompt })
                }
            },
            BarKey::Esc => (AiMode::Idle, AiAction::Nothing),
            _ => (AiMode::PromptInput { buffer }, AiAction::Nothing),
        },
        AiMode::SuggestionReady { command } => match key {
            BarKey::Enter => (AiMode::Idle, AiAction::RunCommand { command }),
            BarKey::Esc => (AiMode::Idle, AiAction::Nothing),
            _ => (AiMode::SuggestionReady { command }, AiAction::Nothing),
        },
        AiMode::Error { message } => match key {
            BarKey::Enter | BarKey::Esc => (AiMode::Idle, AiAction::Nothing),
            _ => (AiMode::Error { message }, AiAction::Nothing),
        },
        AiMode::BackendPicker { choices, selected } => match key {
            BarKey::Up => (AiMode::BackendPicker { choices, selected: up(selected) }, AiAction::Nothing),
            BarKey::Down => {
                let s = down(selected, choices.len());
                (AiMode::BackendPicker { choices, selected: s }, AiAction::Nothing)
            },
            BarKey::Enter => match choices[selected] {
                BackendChoice::ConfigureApi => (
                    AiMode::ConfigApiWizard { step: ConfigApiStep::ChooseProvider { selected: 0 } },
                    AiAction::Nothing,
                ),
                BackendChoice::RemoveApi => {
                    let backends = configured_api_backends(config, env);
                    (AiMode::RemoveApiPicker { backends, selected: 0 }, AiAction::Nothing)
                },
                BackendChoice::Backend(b) => match b {
                    AiBackend::Gemini => {
                        let models = gemini_list_models();
                        (
                            AiMode::ModelPicker { backend: AiBackend::Gemini, models, selected: 0 },
                            AiAction::Nothing,
                        )
                    },
                    AiBackend::Groq => {
                        let models = groq_list_models();
                        (
                            AiMode::ModelPicker { backend: AiBackend::Groq, models, selected: 0 },
                            AiAction::Nothing,
                        )
                    },
                    _ => (
                        AiMode::BackendPicker { choices, selected },
                        AiAction::ListModels { backend: b },
                    ),
                },
            },
            BarKey::Esc => (AiMode::Idle, AiAction::Nothing),
            _ => (AiMode::BackendPicker { choices, selected }, AiAction::Nothing),
        },
        AiMode::ModelPicker { backend, models, selected } => match key {
            BarKey::Up => (
                AiMode::ModelPicker { backend, models, selected: up(selected) },
                AiAction::Nothing,
            ),
            BarKey::Down => {
                let s = down(selected, models.len());
                (AiMode::ModelPicker { backend, models, selected: s }, AiAction::Nothing)
            },
            BarKey::Enter => {
                let model = models[selected].clone();
                (AiMode::Idle, AiAction::UseModel { backend, model })
            },
            BarKey::Esc => (AiMode::Idle, AiAction::Nothing),
            _ => (AiMode::ModelPicker { backend, models, selected }, AiAction::Nothing),
        },
        AiMode::RemoveApiPicker { backends, selected } => match key {
            BarKey::Up => (
                AiMode::RemoveApiPicker { backends, selected: up(selected) },
                AiAction::Nothing,
            ),
            BarKey::Down => {
                let s = down(selected, backends.len());
                (AiMode::RemoveApiPicker { backends, selected: s }, AiAction::Nothing)
            },
            BarKey::Enter => {
                let b = backends[selected];
                (AiMode::RemoveApiPicker { backends, selected }, AiAction::RemoveKey { backend: b })
            },
            BarKey::Esc => (AiMode::Idle, AiAction::Nothing),
            _ => (AiMode::RemoveApiPicker { backends, selected }, AiAction::Nothing),
        },
        AiMode::ConfigApiWizard { step } => match step {
            ConfigApiStep::ChooseProvider { selected } => match key {
                BarKey::Up => (
                    AiMode::ConfigApiWizard {
                        step: ConfigApiStep::ChooseProvider { selected: up(selected) },
                    },
                    AiAction::Nothing,
                ),
                BarKey::Down => {
                    let s = if selected + 1 <= 2 {
                        selected + 1
                    } else {
                        2
                    };
                    (
                        AiMode::ConfigApiWizard { step: ConfigApiStep::ChooseProvider { selected: s } },
                        AiAction::Nothing,
                    )
                },
                BarKey::Enter => {
                    let provider = if selected == 0 {
                        AiBackend::OpenAi
                    } else if selected == 1 {
                        AiBackend::Gemini
                    } else {
                        AiBackend::Groq
                    };
                    let key_buffer = String::new();
                    (
                        AiMode::ConfigApiWizard { step: ConfigApiStep::EnterKey { provider, key_buffer } },
                        AiAction::Nothing,
                    )
                },
                BarKey::Esc => (AiMode::Idle, AiAction::Nothing),
                _ => (
                    AiMode::ConfigApiWizard { step: ConfigApiStep::ChooseProvider { selected } },
                    AiAction::Nothing,
                ),
            },
            ConfigApiStep::EnterKey { provider, mut key_buffer } => match key {
                BarKey::Char(c) => {
                    if !is_control(c) {
                        key_buffer.push(c);
                    }
                    (
                        AiMode::ConfigApiWizard { step: ConfigApiStep::EnterKey { provider, key_buffer } },
                        AiAction::Nothing,
                    )
                },
                BarKey::Backspace => {
                    let _ = key_buffer.pop();
                    (
                        AiMode::ConfigApiWizard { step: ConfigApiStep::EnterKey { provider, key_buffer } },
                        AiAction::Nothing,
                    )
                },
                BarKey::Enter => {
                    let key_text = trimmed_string(&key_buffer);
                    if key_text.unicode_len() == 0 {
                        let mut message = concat_str("Set ", provider.key_env_var());
                        message.append(" env var or add key in config.");
                        (
                            AiMode::ConfigApiWizard { step: ConfigApiStep::Done { message } },
                            AiAction::Nothing,
                        )
                    } else {
                        (
                            AiMode::ConfigApiWizard {
                                step: ConfigApiStep::EnterKey { provider, key_buffer },
                            },
                            AiAction::SaveKey { backend: provider, key: key_text },
                        )
                    }
                },
                BarKey::Esc => (AiMode::Idle, AiAction::Nothing),
                _ => (
                    AiMode::ConfigApiWizard { step: ConfigApiStep::EnterKey { provider, key_buffer } },
                    AiAction::Nothing,
                ),
            },
            ConfigApiStep::Done { message } => match key {
                BarKey::Enter | BarKey::Esc => (AiMode::Idle, AiAction::Nothing),
                _ => (AiMode::ConfigApiWizard { step: ConfigApiStep::Done { message } }, AiAction::Nothing),
            },
        },
        AiMode::Thinking => (AiMode::Thinking, AiAction::Nothing),
        AiMode::Idle => (AiMode::Idle, AiAction::Nothing),
    }
}

// ---------------------------------------------------------------------------
// Results of outside work
// ---------------------------------------------------------------------------

/// Ctrl+K: the prompt opens when the bar is closed.
pub fn open_prompt(mode: AiMode) -> (r: AiMode)
    ensures
        r@ == match mode@ {
            ModeView::Idle => ModeView::PromptInput(Seq::empty()),
            m => m,
        },
{
    match mode {
        AiMode::Idle => AiMode::PromptInput { buffer: String::new() },
        m => m,
    }
}

/// The backend picker, once the backends are listed.
pub fn backends_listed(choices: Vec<BackendChoice>) -> (r: AiMode)
    ensures
        r@ == ModeView::BackendPicker(choices@, 0),
        mode_wf(r@),
{
    AiMode::BackendPicker { choices, selected: 0 }
}

pub open spec fn no_ollama_models_message() -> Seq<char> {
    "No Ollama models. Pull one with: ollama pull <name>"@
}

/// The model picker once a backend's models are listed, or the error.
pub fn models_listed(backend: AiBackend, listing: Result<Vec<String>, String>) -> (r: AiMode)
    ensures
        r@ == match listing {
            Ok(l) => if l@.len() > 0 {
                ModeView::ModelPicker(backend, strings_view(l@), 0)
            } else {
                ModeView::Error(no_ollama_models_message())
            },
            Err(e) => ModeView::Error(e@),
        },
        mode_wf(r@),
{
    match listing {
        Ok(models) => {
            if models.len() > 0 {
                AiMode::ModelPicker { backend, models, selected: 0 }
            } else {
                AiMode::Error {
                    message: "No Ollama models. Pull one with: ollama pull <name>".to_owned(),
                }
            }
        },
        Err(e) => AiMode::Error { message: e },
    }
}

/// The generated command (or the error) is shown when the bar is still waiting for it.
pub fn generation_finished(mode: AiMode, result: Result<String, String>) -> (r: AiMode)
    ensures
        r@ == match mode@ {
            ModeView::Thinking => match result {
                Ok(c) => ModeView::SuggestionReady(c@),
                Err(e) => ModeView::Error(e@),
            },
            m => m,
        },
{
    match mode {
        AiMode::Thinking => match result {
            Ok(command) => AiMode::SuggestionReady { command },
            Err(message) => AiMode::Error { message },
        },
        m => m,
    }
}

/// After removing a key: close the bar (and reload the config) or show the failure.
pub fn key_removed(result: Result<(), String>) -> (r: (AiMode, bool))
    ensures
        r.1 == result is Ok,
        r.0@ == match result {
            Ok(_) => ModeView::Idle,
            Err(e) => ModeView::Error("Remove failed: "@ + e@),
        },
{
    match result {
        Ok(()) => (AiMode::Idle, true),
        Err(e) => (AiMode::Error { message: concat_str("Remove failed: ", e.as_str()) }, false),
    }
}

/// After saving a key: say it is configured (and reload the config) or show the failure.
pub fn key_saved(backend: AiBackend, result: Result<(), String>) -> (r: (AiMode, bool))
    ensures
        r.1 == result is Ok,
        r.0@ == ModeView::ConfigApiWizard(
            StepView::Done(
                match result {
                    Ok(_) => backend.display_name() + " configured. Use /model to select."@,
                    Err(e) => "Save failed: "@ + e@,
                },
            ),
        ),
{
    match result {
        Ok(()) => {
            let message = concat_str(backend.name(), " configured. Use /model to select.");
            (AiMode::ConfigApiWizard { step: ConfigApiStep::Done { message } }, true)
        },
        Err(e) => {
            let message = concat_str("Save failed: ", e.as_str());
            (AiMode::ConfigApiWizard { step: ConfigApiStep::Done { message } }, false)
        },
    }
}

// ---------------------------------------------------------------------------
// Generation requests
// ---------------------------------------------------------------------------

/// The instruction sent with every prompt: reply with one shell command and nothing else.
pub open spec fn command_instruction() -> Seq<char> {
    "You are a shell assistant. Reply with exactly one shell command, no explanation, no markdown code blocks."@
}

/// The instruction sent with every prompt.
pub fn command_system_prompt() -> (s: &'static str)
    ensures
        s@ == command_instruction(),
{
    "You are a shell assistant. Reply with exactly one shell command, no explanation, no markdown code blocks."
}

/// How to ask for a command.
pub enum GenerationPlan {
    /// Resolve the wanted model (if any) against Ollama's listing, then generate there.
    Ollama { base_url: String, wanted_model: Option<String> },
    /// An OpenAI-compatible chat completion (OpenAI or Groq).
    OpenAiCompatible { base_url: String, api_key: String, model: String },
    /// Gemini's generateContent.
    Gemini { api_key: String, model: String },
}

pub open spec fn missing_api_key_message(b: AiBackend) -> Seq<char> {
    "Set "@ + b.key_variable() + " or configure in /model \u{2192} Configure API"@
}

/// The backend in use: the one picked, else the configured default.
pub open spec fn backend_in_use(config: AiConfig, picked: Option<AiBackend>) -> AiBackend {
    match picked {
        Some(b) => b,
        None => config.default_backend,
    }
}

/// The model in use: the one picked, else the configured default.
pub open spec fn model_in_use(config: AiConfig, picked: Option<String>) -> Option<String> {
    match picked {
        Some(m) => Some(m),
        None => config.default_model,
    }
}

pub open spec fn model_or(m: Option<String>, default: Seq<char>) -> Seq<char> {
    match m {
        Some(s) => s@,
        None => default,
    }
}

fn missing_api_key(b: AiBackend) -> (s: String)
    ensures
        s@ == missing_api_key_message(b),
{
    let mut s = concat_str("Set ", b.key_env_var());
    s.append(" or configure in /model \u{2192} Configure API");
    s
}

/// What to call to generate a command with the backend and model in use; an error when
/// the backend needs an API key that is missing.
pub fn plan_generation(
    config: &AiConfig,
    env: &EnvApiKeys,
    backend_override: Option<AiBackend>,
    model_override: &Option<String>,
) -> (r: Result<GenerationPlan, String>)
    ensures
        ({
            let b = backend_in_use(*config, backend_override);
            let m = model_in_use(*config, *model_override);
            match b {
                AiBackend::Ollama => r matches Ok(GenerationPlan::Ollama { base_url, wanted_model })
                    && base_url@ == config.ollama_base_url@ && wanted_model == m,
                AiBackend::OpenAi => match config.api_key_of(b, *env) {
                    None => r matches Err(e) && e@ == missing_api_key_message(b),
                    Some(k) => r matches Ok(
                        GenerationPlan::OpenAiCompatible { base_url, api_key, model },
                    ) && base_url@ == AiConfig::url_or(
                        config.providers.openai,
                        "https://api.openai.com/v1"@,
                    ) && api_key == k && model@ == model_or(m, "gpt-4o-mini"@),
                },
                AiBackend::Gemini => match config.api_key_of(b, *env) {
                    None => r matches Err(e) && e@ == missing_api_key_message(b),
                    Some(k) => r matches Ok(GenerationPlan::Gemini { api_key, model })
                        && api_key == k && model@ == model_or(m, "gemini-2.0-flash"@),
                },
                AiBackend::Groq => match config.api_key_of(b, *env) {
                    None => r matches Err(e) && e@ == missing_api_key_message(b),
                    Some(k) => r matches Ok(
                        GenerationPlan::OpenAiCompatible { base_url, api_key, model },
                    ) && base_url@ == AiConfig::url_or(
                        config.providers.groq,
                        "https://api.groq.com/openai/v1"@,
                    ) && api_key == k && model@ == model_or(m, "llama-3.3-70b-versatile"@),
                },
            }
        }),
{
    let backend = match backend_override {
        Some(b) => b,
        None => config.default_backend,
    };
    let model = match model_override {
        Some(m) => Some(m.clone()),
        None => clone_opt_string(&config.default_model),
    };
    match backend {
        AiBackend::Ollama => Ok(
            GenerationPlan::Ollama { base_url: config.ollama_base_url.clone(), wanted_model: model },
        ),
        AiBackend::OpenAi => match config.openai_api_key(env) {
            None => Err(missing_api_key(backend)),
            Some(api_key) => Ok(
                GenerationPlan::OpenAiCompatible {
                    base_url: config.openai_base_url(),
                    api_key,
                    model: match model {
                        Some(m) => m,
                        None => "gpt-4o-mini".to_owned(),
                    },
                },
            ),
        },
        AiBackend::Gemini => match config.gemini_api_key(env) {
            None => Err(missing_api_key(backend)),
            Some(api_key) => Ok(
                GenerationPlan::Gemini {
                    api_key,
                    model: match model {
                        Some(m) => m,
                        None => "gemini-2.0-flash".to_owned(),
                    },
                },
            ),
        },
        AiBackend::Groq => match config.groq_api_key(env) {
            None => Err(missing_api_key(backend)),
            Some(api_key) => Ok(
                GenerationPlan::OpenAiCompatible {
                    base_url: config.groq_base_url(),
                    api_key,
                    model: match model {
                        Some(m) => m,
                        None => "llama-3.3-70b-versatile".to_owned(),
                    },
                },
            ),
        },
    }
}

/// The "backend · model" label shown when a model is in use.
pub fn current_model_label(
    config: &AiConfig,
    backend_override: Option<AiBackend>,
    model_override: &Option<String>,
) -> (r: Option<String>)
    ensures
        match model_in_use(*config, *model_override) {
            None => r is None,
            Some(m) => r matches Some(l) && l@ == backend_in_use(
                *config,
                backend_override,
            ).display_name() + " \u{b7} "@ + m@,
        },
{
    let backend = match backend_override {
        Some(b) => b,
        None => config.default_backend,
    };
    let model = match model_override {
        Some(m) => Some(m),
        None => match &config.default_model {
            Some(m) => Some(m),
            None => None,
        },
    };
    match model {
        Some(m) => {
            let mut l = concat_str(backend.name(), " \u{b7} ");
            l.append(m.as_str());
            Some(l)
        },
        None => None,
    }
}

/// The title of the AI box in mode `m`.
pub open spec fn bar_title_spec(m: ModeView) -> Seq<char> {
    match m {
        ModeView::BackendPicker(_, _) => "  Select backend"@,
        ModeView::ModelPicker(_, _, _) => "  Select model"@,
        ModeView::ConfigApiWizard(_) => "  Configure API"@,
        ModeView::RemoveApiPicker(_, _) => "  Remove API"@,
        _ => "  Command instructions"@,
    }
}

pub fn bar_title(mode: &AiMode) -> (t: &'static str)
    ensures
        t@ == bar_title_spec(mode@),
{
    match mode {
        AiMode::BackendPicker { .. } => "  Select backend",
        AiMode::ModelPicker { .. } => "  Select model",
        AiMode::ConfigApiWizard { .. } => "  Configure API",
        AiMode::RemoveApiPicker { .. } => "  Remove API",
        _ => "  Command instructions",
    }
}

// ---------------------------------------------------------------------------
// Laws
// ---------------------------------------------------------------------------

/// Esc dismisses the AI bar from every mode but `Thinking` (where keys wait for the
/// reply), and starts no work.
pub proof fn lemma_esc_dismisses(m: ModeView, config: AiConfig, env: EnvApiKeys)
    requires
        m != ModeView::Thinking,
    ensures
        on_key_spec(m, BarKey::Esc, config, env) == (ModeView::Idle, ActionView::Nothing),
{
}

/// Backspace undoes a typed (non-control) character, in the prompt and in the key entry
/// of the Configure API wizard.
pub proof fn lemma_backspace_undoes_typing(
    buffer: Seq<char>,
    provider: AiBackend,
    c: char,
    config: AiConfig,
    env: EnvApiKeys,
)
    requires
        !is_control_char(c),
    ensures
        on_key_spec(
            on_key_spec(ModeView::PromptInput(buffer), BarKey::Char(c), config, env).0,
            BarKey::Backspace,
            config,
            env,
        ).0 == ModeView::PromptInput(buffer),
        ({
            let m = ModeView::ConfigApiWizard(StepView::EnterKey(provider, buffer));
            on_key_spec(on_key_spec(m, BarKey::Char(c), config, env).0, BarKey::Backspace, config, env).0
                == m
        }),
{
    assert(buffer.push(c).drop_last() =~= buffer);
}

/// In every picker, Down then Up returns to the entry it started from, unless Down was
/// already on the last entry.
pub proof fn lemma_down_then_up_returns(m: ModeView, config: AiConfig, env: EnvApiKeys)
    requires
        mode_wf(m),
        match m {
            ModeView::BackendPicker(c, s) => s + 1 < c.len(),
            ModeView::ModelPicker(_, ms, s) => s + 1 < ms.len(),
            ModeView::RemoveApiPicker(bs, s) => s + 1 < bs.len(),
            ModeView::ConfigApiWizard(StepView::ChooseProvider(s)) => s < 2,
            _ => false,
        },
    ensures
        on_key_spec(on_key_spec(m, BarKey::Down, config, env).0, BarKey::Up, config, env) == (
            m,
            ActionView::Nothing,
        ),
{
}


/// Enter submits what was typed with only the whitespace at its two ends removed. In the key
/// entry of the Configure API wizard it saves that key for the provider being configured;
/// a key of nothing but whitespace is not saved, and the wizard says which variable to set
/// instead. In the prompt it asks for a command for that prompt, lists the backends for
/// `/model` or `/models`, and closes the bar when nothing but whitespace was typed.
pub proof fn lemma_enter_submits_trimmed(
    buffer: Seq<char>,
    provider: AiBackend,
    config: AiConfig,
    env: EnvApiKeys,
)
    ensures
        ({
            let blank = forall|j: int| 0 <= j < buffer.len() ==> is_ws(#[trigger] buffer[j]);
            let w = ModeView::ConfigApiWizard(StepView::EnterKey(provider, buffer));
            let rw = on_key_spec(w, BarKey::Enter, config, env);
            let q = ModeView::PromptInput(buffer);
            let rq = on_key_spec(q, BarKey::Enter, config, env);
            let model_command = outer_whitespace_removed(buffer, "/model"@)
                || outer_whitespace_removed(buffer, "/models"@);
            &&& blank ==> rw == (
                ModeView::ConfigApiWizard(StepView::Done(missing_key_message(provider))),
                ActionView::Nothing,
            )
            &&& !blank ==> rw.0 == w && (rw.1 matches ActionView::SaveKey(b, k) && b == provider
                && k.len() > 0 && outer_whitespace_removed(buffer, k))
            &&& blank ==> rq == (ModeView::Idle, ActionView::Nothing)
            &&& !blank && model_command ==> rq == (q, ActionView::ListBackends)
            &&& !blank && !model_command ==> rq.0 == ModeView::Thinking && (rq.1 matches ActionView::Generate(
                k,
            ) && k.len() > 0 && outer_whitespace_removed(buffer, k))
        }),
{
    lemma_trim_removes_outer_whitespace(buffer);
    reveal_strlit("/model");
    reveal_strlit("/models");
    if outer_whitespace_removed(buffer, "/model"@) {
        lemma_outer_whitespace_removed_is_trim(buffer, "/model"@);
    }
    if outer_whitespace_removed(buffer, "/models"@) {
        lemma_outer_whitespace_removed_is_trim(buffer, "/models"@);
    }
}

} // verus!
