//! AI backends and their configuration: backend names, API keys (environment first,
//! then config file), base URLs, the backend picker, model lists, request URLs and the
//! cleaning of model replies.

use vstd::prelude::*;
use vstd::string::StrSliceExecFns;
use crate::helpers::{stripped_code, strip_code_blocks};
use crate::text::{
    ascii_lower, chars_of, concat_str, contains_exec, contains_seq, is_ascii_text,
    lemma_trim_of_trimmed, range_equals, skip_char_backward, starts_with, starts_with_exec, str_lowercase,
    string_of_range, strings_view, to_lowercase, trim, trim_bounds, trim_end_char,
};

verus! {

// ---------------------------------------------------------------------------
// Backends
// ---------------------------------------------------------------------------

/// AI backend (Ollama = local; others = API with key).
#[derive(Clone, Copy, Debug, PartialEq, Eq, Structural)]
pub enum AiBackend {
    Ollama,
    OpenAi,
    Gemini,
    Groq,
}

/// The backend a (lower-case) name denotes.
pub open spec fn backend_named(t: Seq<char>) -> Option<AiBackend> {
    if t == "ollama"@ {
        Some(AiBackend::Ollama)
    } else if t == "openai"@ {
        Some(AiBackend::OpenAi)
    } else if t == "gemini"@ {
        Some(AiBackend::Gemini)
    } else if t == "groq"@ {
        Some(AiBackend::Groq)
    } else {
        None
    }
}

pub(crate) fn text_is(v: &Vec<char>, lit: &str) -> (b: bool)
    ensures
        b == (v@ == lit@),
{
    let b = range_equals(v, 0, v.len(), &chars_of(lit));
    assert(v@.subrange(0, v@.len() as int) =~= v@);
    b
}

impl AiBackend {
    /// The name shown to the user.
    pub open spec fn display_name(self) -> Seq<char> {
        match self {
            AiBackend::Ollama => "Ollama"@,
            AiBackend::OpenAi => "OpenAI"@,
            AiBackend::Gemini => "Gemini"@,
            AiBackend::Groq => "Groq"@,
        }
    }

    /// The name shown to the user.
    pub fn name(&self) -> (s: &'static str)
        ensures
            s@ == self.display_name(),
    {
        match self {
            AiBackend::Ollama => "Ollama",
            AiBackend::OpenAi => "OpenAI",
            AiBackend::Gemini => "Gemini",
            AiBackend::Groq => "Groq",
        }
    }

    /// The key of the backend's table under `[ai.providers]` in the config file.
    pub open spec fn config_key(self) -> Seq<char> {
        match self {
            AiBackend::Ollama => "ollama"@,
            AiBackend::OpenAi => "openai"@,
            AiBackend::Gemini => "gemini"@,
            AiBackend::Groq => "groq"@,
        }
    }

    /// The key of the backend's table under `[ai.providers]` in the config file.
    pub fn provider_name(&self) -> (s: &'static str)
        ensures
            s@ == self.config_key(),
    {
        match self {
            AiBackend::Ollama => "ollama",
            AiBackend::OpenAi => "openai",
            AiBackend::Gemini => "gemini",
            AiBackend::Groq => "groq",
        }
    }

    /// The environment variable holding the backend's API key.
    pub open spec fn key_variable(self) -> Seq<char> {
        match self {
            AiBackend::Ollama => "N/A (Ollama needs no key)"@,
            AiBackend::OpenAi => "OPENAI_API_KEY"@,
            AiBackend::Gemini => "GEMINI_API_KEY"@,
            AiBackend::Groq => "GROQ_API_KEY"@,
        }
    }

    /// The environment variable holding the backend's API key.
    pub fn key_env_var(&self) -> (s: &'static str)
        ensures
            s@ == self.key_variable(),
    {
        match self {
            AiBackend::Ollama => "N/A (Ollama needs no key)",
            AiBackend::OpenAi => "OPENAI_API_KEY",
            AiBackend::Gemini => "GEMINI_API_KEY",
            AiBackend::Groq => "GROQ_API_KEY",
        }
    }

    /// The backend of an already trimmed and lower-cased name.
    pub fn from_lowercase_name(t: &str) -> (r: Option<AiBackend>)
        ensures
            r == backend_named(t@),
    {
        let v = chars_of(t);
        if text_is(&v, "ollama") {
            Some(AiBackend::Ollama)
        } else if text_is(&v, "openai") {
            Some(AiBackend::OpenAi)
        } else if text_is(&v, "gemini") {
            Some(AiBackend::Gemini)
        } else if text_is(&v, "groq") {
            Some(AiBackend::Groq)
        } else {
            None
        }
    }

    /// The backend named by `s`, ignoring surrounding whitespace and case.
    pub fn from_str(s: &str) -> (r: Option<AiBackend>)
        ensures
            r == backend_named(str_lowercase(trim(s@))),
            is_ascii_text(trim(s@)) ==> r == backend_named(ascii_lower(trim(s@))),
    {
        let v = chars_of(s);
        let (a, b) = trim_bounds(&v, 0, v.len());
        assert(v@.subrange(0, v@.len() as int) =~= v@);
        let trimmed = s.substring_char(a, b);
        let lower = to_lowercase(trimmed);
        Self::from_lowercase_name(lower.as_str())
    }
}

/// Each backend's display name is ASCII text without surrounding whitespace, and made
/// lowercase it names that backend again; so `from_str` of a display name, in any ASCII
/// casing and with surrounding whitespace, gives the backend back.
pub proof fn lemma_backend_name_round_trip(b: AiBackend)
    ensures
        is_ascii_text(b.display_name()),
        trim(b.display_name()) == b.display_name(),
        backend_named(ascii_lower(b.display_name())) == Some(b),
{
    reveal_strlit("Ollama");
    reveal_strlit("OpenAI");
    reveal_strlit("Gemini");
    reveal_strlit("Groq");
    reveal_strlit("ollama");
    reveal_strlit("openai");
    reveal_strlit("gemini");
    reveal_strlit("groq");
    let n = b.display_name();
    lemma_trim_of_trimmed(n);
    assert(ascii_lower(n) =~= match b {
        AiBackend::Ollama => "ollama"@,
        AiBackend::OpenAi => "openai"@,
        AiBackend::Gemini => "gemini"@,
        AiBackend::Groq => "groq"@,
    });
    assert("openai"@[1] != "ollama"@[1]);
    assert("gemini"@[0] != "ollama"@[0] && "gemini"@[0] != "openai"@[0]);
    assert("groq"@.len() != "ollama"@.len() && "groq"@.len() != "openai"@.len()
        && "groq"@.len() != "gemini"@.len());
}

/// A backend's names agree: its table under `[ai.providers]` is its display name made
/// lowercase, which names that backend again; and the environment variable for its API
/// key is that table name upper-cased with `_API_KEY` after it.
pub proof fn lemma_backend_names_agree(b: AiBackend)
    ensures
        b.config_key() == ascii_lower(b.display_name()),
        backend_named(b.config_key()) == Some(b),
        b != AiBackend::Ollama ==> ascii_lower(b.key_variable()) == b.config_key()
            + "_api_key"@,
{
    lemma_backend_name_round_trip(b);
    reveal_strlit("Ollama");
    reveal_strlit("OpenAI");
    reveal_strlit("Gemini");
    reveal_strlit("Groq");
    reveal_strlit("ollama");
    reveal_strlit("openai");
    reveal_strlit("gemini");
    reveal_strlit("groq");
    reveal_strlit("OPENAI_API_KEY");
    reveal_strlit("GEMINI_API_KEY");
    reveal_strlit("GROQ_API_KEY");
    reveal_strlit("_api_key");
    assert(ascii_lower(b.display_name()) =~= b.config_key());
    if b != AiBackend::Ollama {
        assert(ascii_lower(b.key_variable()) =~= b.config_key() + "_api_key"@);
    }
}

// ---------------------------------------------------------------------------
// Configuration
// ---------------------------------------------------------------------------

pub open spec fn opt_view(o: Option<String>) -> Option<Seq<char>> {
    match o {
        Some(s) => Some(s@),
        None => None,
    }
}

pub fn clone_opt_string(o: &Option<String>) -> (r: Option<String>)
    ensures
        r == *o,
{
    match o {
        Some(s) => Some(s.clone()),
        None => None,
    }
}

/// One provider's table in the config file.
pub struct ProviderConfig {
    pub api_key: Option<String>,
    pub base_url: Option<String>,
    pub model: Option<String>,
}

/// The `[ai.providers]` tables.
pub struct AiProvidersSection {
    pub openai: Option<ProviderConfig>,
    pub gemini: Option<ProviderConfig>,
    pub groq: Option<ProviderConfig>,
}

/// The `[ai]` table of the config file.
pub struct AiSection {
    pub model: Option<String>,
    pub backend: Option<String>,
    pub base_url: Option<String>,
    pub providers: Option<AiProvidersSection>,
}

/// Values of the API-key environment variables (`None` when unset or not Unicode).
pub struct EnvApiKeys {
    pub openai: Option<String>,
    pub gemini: Option<String>,
    pub groq: Option<String>,
}

/// Loaded AI config: Ollama base URL, default backend/model, per-provider keys.
pub struct AiConfig {
    pub ollama_base_url: String,
    pub default_backend: AiBackend,
    pub default_model: Option<String>,
    pub providers: AiProvidersSection,
}

pub fn clone_provider(p: &ProviderConfig) -> (r: ProviderConfig)
    ensures
        r == *p,
{
    ProviderConfig {
        api_key: clone_opt_string(&p.api_key),
        base_url: clone_opt_string(&p.base_url),
        model: clone_opt_string(&p.model),
    }
}

pub fn clone_opt_provider(p: &Option<ProviderConfig>) -> (r: Option<ProviderConfig>)
    ensures
        r == *p,
{
    match p {
        Some(c) => Some(clone_provider(c)),
        None => None,
    }
}

impl AiProvidersSection {
    pub fn empty() -> (s: AiProvidersSection)
        ensures
            s.openai is None && s.gemini is None && s.groq is None,
    {
        AiProvidersSection { openai: None, gemini: None, groq: None }
    }

    pub fn duplicate(&self) -> (s: AiProvidersSection)
        ensures
            s == *self,
    {
        AiProvidersSection {
            openai: clone_opt_provider(&self.openai),
            gemini: clone_opt_provider(&self.gemini),
            groq: clone_opt_provider(&self.groq),
        }
    }

    /// The config table of `backend` (Ollama has none).
    pub open spec fn table_of(self, backend: AiBackend) -> Option<ProviderConfig> {
        match backend {
            AiBackend::Ollama => None,
            AiBackend::OpenAi => self.openai,
            AiBackend::Gemini => self.gemini,
            AiBackend::Groq => self.groq,
        }
    }
}

impl EnvApiKeys {
    /// The environment variable value for `backend` (Ollama has none).
    pub open spec fn value_of(self, backend: AiBackend) -> Option<String> {
        match backend {
            AiBackend::Ollama => None,
            AiBackend::OpenAi => self.openai,
            AiBackend::Gemini => self.gemini,
            AiBackend::Groq => self.groq,
        }
    }
}

pub open spec fn table_key(p: Option<ProviderConfig>) -> Option<String> {
    match p {
        Some(c) => c.api_key,
        None => None,
    }
}

pub open spec fn table_url(p: Option<ProviderConfig>) -> Option<String> {
    match p {
        Some(c) => c.base_url,
        None => None,
    }
}

fn key_or_table(env: &Option<String>, table: &Option<ProviderConfig>) -> (r: Option<String>)
    ensures
        r == if env is Some {
            *env
        } else {
            table_key(*table)
        },
{
    match env {
        Some(k) => Some(k.clone()),
        None => match table {
            Some(c) => clone_opt_string(&c.api_key),
            None => None,
        },
    }
}

impl AiConfig {
    /// The API key of `backend`: the environment variable if set, else the config file's.
    pub open spec fn api_key_of(self, backend: AiBackend, env: EnvApiKeys) -> Option<String> {
        if env.value_of(backend) is Some {
            env.value_of(backend)
        } else {
            table_key(self.providers.table_of(backend))
        }
    }

    /// A key in the environment wins over the config file's; without one, the file's key
    /// is used; and a backend with a key (and Ollama, which needs none) counts as configured.
    pub proof fn lemma_environment_key_wins(self, backend: AiBackend, env: EnvApiKeys)
        ensures
            env.value_of(backend) is Some ==> self.api_key_of(backend, env) == env.value_of(backend),
            env.value_of(backend) is None ==> self.api_key_of(backend, env) == table_key(
                self.providers.table_of(backend),
            ),
            backend != AiBackend::Ollama ==> (self.configured(backend, env) <==> self.api_key_of(
                backend,
                env,
            ) is Some),
            self.configured(AiBackend::Ollama, env),
    {
    }

    pub fn openai_api_key(&self, env: &EnvApiKeys) -> (r: Option<String>)
        ensures
            r == self.api_key_of(AiBackend::OpenAi, *env),
    {
        key_or_table(&env.openai, &self.providers.openai)
    }

    pub fn gemini_api_key(&self, env: &EnvApiKeys) -> (r: Option<String>)
        ensures
            r == self.api_key_of(AiBackend::Gemini, *env),
    {
        key_or_table(&env.gemini, &self.providers.gemini)
    }

    pub fn groq_api_key(&self, env: &EnvApiKeys) -> (r: Option<String>)
        ensures
            r == self.api_key_of(AiBackend::Groq, *env),
    {
        key_or_table(&env.groq, &self.providers.groq)
    }

    /// Ollama needs nothing; the others need an API key.
    pub open spec fn configured(self, backend: AiBackend, env: EnvApiKeys) -> bool {
        backend == AiBackend::Ollama || self.api_key_of(backend, env) is Some
    }

    pub fn is_configured(&self, backend: AiBackend, env: &EnvApiKeys) -> (b: bool)
        ensures
            b == self.configured(backend, *env),
    {
        match backend {
            AiBackend::Ollama => true,
            AiBackend::OpenAi => self.openai_api_key(env).is_some(),
            AiBackend::Gemini => self.gemini_api_key(env).is_some(),
            AiBackend::Groq => self.groq_api_key(env).is_some(),
        }
    }

    pub open spec fn url_or(p: Option<ProviderConfig>, default: Seq<char>) -> Seq<char> {
        match table_url(p) {
            Some(u) => u@,
            None => default,
        }
    }

    pub fn openai_base_url(&self) -> (u: String)
        ensures
            u@ == Self::url_or(self.providers.openai, "https://api.openai.com/v1"@),
    {
        match &self.providers.openai {
            Some(c) => match &c.base_url {
                Some(u) => u.clone(),
                None => "https://api.openai.com/v1".to_owned(),
            },
            None => "https://api.openai.com/v1".to_owned(),
        }
    }

    pub fn groq_base_url(&self) -> (u: String)
        ensures
            u@ == Self::url_or(self.providers.groq, "https://api.groq.com/openai/v1"@),
    {
        match &self.providers.groq {
            Some(c) => match &c.base_url {
                Some(u) => u.clone(),
                None => "https://api.groq.com/openai/v1".to_owned(),
            },
            None => "https://api.groq.com/openai/v1".to_owned(),
        }
    }
}

/// The Ollama server used when the config names none.
pub open spec fn default_ollama_url() -> Seq<char> {
    "http://127.0.0.1:11434"@
}

/// The configuration a config file's `[ai]` table gives (`None`: no file, unreadable,
/// unparsable, or no `[ai]` table).
pub fn ai_config_from_section(section: Option<AiSection>) -> (c: AiConfig)
    ensures
        match section {
            None => c.ollama_base_url@ == default_ollama_url() && c.default_backend
                == AiBackend::Ollama && c.default_model is None && c.providers.openai is None
                && c.providers.gemini is None && c.providers.groq is None,
            Some(s) => {
                &&& c.ollama_base_url@ == match s.base_url {
                    Some(u) => u@,
                    None => default_ollama_url(),
                }
                &&& c.default_backend == match s.backend {
                    Some(b) => match backend_named(str_lowercase(trim(b@))) {
                        Some(k) => k,
                        None => AiBackend::Ollama,
                    },
                    None => AiBackend::Ollama,
                }
                &&& c.default_model == s.model
                &&& match s.providers {
                    Some(p) => c.providers == p,
                    None => c.providers.openai is None && c.providers.gemini is None
                        && c.providers.groq is None,
                }
            },
        },
{
    match section {
        None => AiConfig {
            ollama_base_url: "http://127.0.0.1:11434".to_owned(),
            default_backend: AiBackend::Ollama,
            default_model: None,
            providers: AiProvidersSection::empty(),
        },
        Some(s) => {
            let ollama_base_url = match s.base_url {
                Some(u) => u,
                None => "http://127.0.0.1:11434".to_owned(),
            };
            let default_backend = match &s.backend {
                Some(b) => match AiBackend::from_str(b.as_str()) {
                    Some(k) => k,
                    None => AiBackend::Ollama,
                },
                None => AiBackend::Ollama,
            };
            let providers = match s.providers {
                Some(p) => p,
                None => AiProvidersSection::empty(),
            };
            AiConfig { ollama_base_url, default_backend, default_model: s.model, providers }
        },
    }
}

// ---------------------------------------------------------------------------
// Backend picker
// ---------------------------------------------------------------------------

/// Entry in the backend picker: either a backend, "Configure API", or "Remove API".
#[derive(Clone, Copy, Debug, PartialEq, Eq, Structural)]
pub enum BackendChoice {
    Backend(AiBackend),
    ConfigureApi,
    RemoveApi,
}

pub open spec fn seq_if<T>(b: bool, s: Seq<T>) -> Seq<T> {
    if b {
        s
    } else {
        Seq::empty()
    }
}

/// Ollama if it listed some models, each API backend that is configured, "Configure API",
/// and "Remove API" when some API backend is configured.
pub open spec fn backend_choices(
    config: AiConfig,
    env: EnvApiKeys,
    ollama_has_models: bool,
) -> Seq<BackendChoice> {
    let openai = config.configured(AiBackend::OpenAi, env);
    let gemini = config.configured(AiBackend::Gemini, env);
    let groq = config.configured(AiBackend::Groq, env);
    seq_if(ollama_has_models, seq![BackendChoice::Backend(AiBackend::Ollama)]) + seq_if(
        openai,
        seq![BackendChoice::Backend(AiBackend::OpenAi)],
    ) + seq_if(gemini, seq![BackendChoice::Backend(AiBackend::Gemini)]) + seq_if(
        groq,
        seq![BackendChoice::Backend(AiBackend::Groq)],
    ) + seq![BackendChoice::ConfigureApi] + seq_if(
        openai || gemini || groq,
        seq![BackendChoice::RemoveApi],
    )
}

proof fn lemma_contains_concat(x: Seq<BackendChoice>, y: Seq<BackendChoice>, v: BackendChoice)
    ensures
        (x + y).contains(v) <==> (x.contains(v) || y.contains(v)),
{
    if (x + y).contains(v) {
        let i = choose|i: int| 0 <= i < (x + y).len() && (x + y)[i] == v;
        if i < x.len() {
            assert(x[i] == v);
        } else {
            assert(y[i - x.len()] == v);
        }
    }
    if x.contains(v) {
        let i = choose|i: int| 0 <= i < x.len() && x[i] == v;
        assert((x + y)[i] == v);
    }
    if y.contains(v) {
        let i = choose|i: int| 0 <= i < y.len() && y[i] == v;
        assert((x + y)[x.len() + i] == v);
    }
}

proof fn lemma_contains_seq_if(b: bool, z: BackendChoice, v: BackendChoice)
    ensures
        seq_if(b, seq![z]).contains(v) <==> (b && v == z),
{
    if b && v == z {
        assert(seq_if(b, seq![z])[0] == v);
    }
}

/// The backend picker always offers "Configure API", so it is never empty; it offers an
/// API backend exactly when that backend has a key, Ollama exactly when Ollama listed
/// models, and "Remove API" exactly when some API backend has a key.
pub proof fn lemma_backend_choices(config: AiConfig, env: EnvApiKeys, ollama_has_models: bool)
    ensures
        backend_choices(config, env, ollama_has_models).contains(BackendChoice::ConfigureApi),
        backend_choices(config, env, ollama_has_models).len() > 0,
        forall|b: AiBackend|
            b != AiBackend::Ollama ==> (backend_choices(config, env, ollama_has_models).contains(
                BackendChoice::Backend(b),
            ) <==> config.configured(b, env)),
        backend_choices(config, env, ollama_has_models).contains(
            BackendChoice::Backend(AiBackend::Ollama),
        ) <==> ollama_has_models,
        backend_choices(config, env, ollama_has_models).contains(BackendChoice::RemoveApi) <==> (
        config.configured(AiBackend::OpenAi, env) || config.configured(AiBackend::Gemini, env)
            || config.configured(AiBackend::Groq, env)),
{
    let openai = config.configured(AiBackend::OpenAi, env);
    let gemini = config.configured(AiBackend::Gemini, env);
    let groq = config.configured(AiBackend::Groq, env);
    let a = seq_if(ollama_has_models, seq![BackendChoice::Backend(AiBackend::Ollama)]);
    let b = seq_if(openai, seq![BackendChoice::Backend(AiBackend::OpenAi)]);
    let c = seq_if(gemini, seq![BackendChoice::Backend(AiBackend::Gemini)]);
    let d = seq_if(groq, seq![BackendChoice::Backend(AiBackend::Groq)]);
    let e = seq_if(true, seq![BackendChoice::ConfigureApi]);
    let f = seq_if(openai || gemini || groq, seq![BackendChoice::RemoveApi]);
    let all = backend_choices(config, env, ollama_has_models);
    assert(all == a + b + c + d + e + f);
    assert forall|v: BackendChoice| #[trigger] all.contains(v) <==> (a.contains(v) || b.contains(v)
        || c.contains(v) || d.contains(v) || e.contains(v) || f.contains(v)) by {
        lemma_contains_concat(a, b, v);
        lemma_contains_concat(a + b, c, v);
        lemma_contains_concat(a + b + c, d, v);
        lemma_contains_concat(a + b + c + d, e, v);
        lemma_contains_concat(a + b + c + d + e, f, v);
    }
    assert forall|v: BackendChoice| #[trigger] all.contains(v) <==> ((ollama_has_models && v
        == BackendChoice::Backend(AiBackend::Ollama)) || (openai && v == BackendChoice::Backend(
        AiBackend::OpenAi,
    )) || (gemini && v == BackendChoice::Backend(AiBackend::Gemini)) || (groq && v
        == BackendChoice::Backend(AiBackend::Groq)) || v == BackendChoice::ConfigureApi || ((openai
        || gemini || groq) && v == BackendChoice::RemoveApi)) by {
        lemma_contains_seq_if(ollama_has_models, BackendChoice::Backend(AiBackend::Ollama), v);
        lemma_contains_seq_if(openai, BackendChoice::Backend(AiBackend::OpenAi), v);
        lemma_contains_seq_if(gemini, BackendChoice::Backend(AiBackend::Gemini), v);
        lemma_contains_seq_if(groq, BackendChoice::Backend(AiBackend::Groq), v);
        lemma_contains_seq_if(true, BackendChoice::ConfigureApi, v);
        lemma_contains_seq_if(openai || gemini || groq, BackendChoice::RemoveApi, v);
    }
}

/// Build list of backends to show, given what listing Ollama's models gave.
pub fn available_backends(
    ai_config: &AiConfig,
    env: &EnvApiKeys,
    ollama_models: &Result<Vec<String>, String>,
) -> (choices: Vec<BackendChoice>)
    ensures
        choices@ == backend_choices(
            *ai_config,
            *env,
            match ollama_models {
                Ok(l) => l@.len() > 0,
                Err(_) => false,
            },
        ),
{
    let mut choices: Vec<BackendChoice> = Vec::new();
    let has_models = match ollama_models {
        Ok(l) => l.len() > 0,
        Err(_) => false,
    };
    if has_models {
        choices.push(BackendChoice::Backend(AiBackend::Ollama));
    }
    let openai = ai_config.is_configured(AiBackend::OpenAi, env);
    let gemini = ai_config.is_configured(AiBackend::Gemini, env);
    let groq = ai_config.is_configured(AiBackend::Groq, env);
    if openai {
        choices.push(BackendChoice::Backend(AiBackend::OpenAi));
    }
    if gemini {
        choices.push(BackendChoice::Backend(AiBackend::Gemini));
    }
    if groq {
        choices.push(BackendChoice::Backend(AiBackend::Groq));
    }
    choices.push(BackendChoice::ConfigureApi);
    if openai || gemini || groq {
        choices.push(BackendChoice::RemoveApi);
    }
    assert(choices@ =~= backend_choices(*ai_config, *env, has_models));
    choices
}

/// The API backends that have a key, for the "Remove API" picker.
pub fn configured_api_backends(ai_config: &AiConfig, env: &EnvApiKeys) -> (r: Vec<AiBackend>)
    ensures
        r@ == seq_if(ai_config.configured(AiBackend::OpenAi, *env), seq![AiBackend::OpenAi])
            + seq_if(ai_config.configured(AiBackend::Gemini, *env), seq![AiBackend::Gemini]) + seq_if(
            ai_config.configured(AiBackend::Groq, *env),
            seq![AiBackend::Groq],
        ),
{
    let mut r: Vec<AiBackend> = Vec::new();
    if ai_config.is_configured(AiBackend::OpenAi, env) {
        r.push(AiBackend::OpenAi);
    }
    if ai_config.is_configured(AiBackend::Gemini, env) {
        r.push(AiBackend::Gemini);
    }
    if ai_config.is_configured(AiBackend::Groq, env) {
        r.push(AiBackend::Groq);
    }
    assert(r@ =~= seq_if(ai_config.configured(AiBackend::OpenAi, *env), seq![AiBackend::OpenAi])
        + seq_if(ai_config.configured(AiBackend::Gemini, *env), seq![AiBackend::Gemini]) + seq_if(
        ai_config.configured(AiBackend::Groq, *env),
        seq![AiBackend::Groq],
    ));
    r
}

// ---------------------------------------------------------------------------
// Models
// ---------------------------------------------------------------------------

/// Message when Ollama has no model.
pub open spec fn no_models_message() -> Seq<char> {
    "No models found. Pull a model with: ollama pull <name>"@
}

/// The model to use with Ollama, from the listing of its models: the configured one if it
/// is listed, else the first listed one.
pub open spec fn resolved_model(
    list: Result<Seq<Seq<char>>, Seq<char>>,
    config_model: Option<Seq<char>>,
) -> Result<Seq<char>, Seq<char>> {
    match list {
        Err(e) => Err(e),
        Ok(l) => if l.len() == 0 {
            Err(no_models_message())
        } else {
            match config_model {
                Some(want) => if l.contains(want) {
                    Ok(want)
                } else {
                    Ok(l[0])
                },
                None => Ok(l[0]),
            }
        },
    }
}

/// The model resolved against a non-empty listing is always one of the listed models, and
/// it is the configured model whenever that one is listed; an empty listing is an error
/// that says how to pull a model, and a failed listing passes its error on.
pub proof fn lemma_resolved_model_is_listed(
    listed: Seq<Seq<char>>,
    error: Seq<char>,
    config_model: Option<Seq<char>>,
)
    ensures
        ({
            let r = resolved_model(Ok(listed), config_model);
            listed.len() > 0 ==> {
                &&& r is Ok
                &&& listed.contains(r->Ok_0)
                &&& config_model is Some && listed.contains(config_model->Some_0) ==> r->Ok_0
                    == config_model->Some_0
            }
        }),
        listed.len() == 0 ==> resolved_model(Ok(listed), config_model) == Err::<
            Seq<char>,
            Seq<char>,
        >(no_models_message()),
        resolved_model(Err(error), config_model) == Err::<Seq<char>, Seq<char>>(error),
{
    if listed.len() > 0 {
        assert(listed.contains(listed[0]));
    }
}

pub open spec fn result_view(r: Result<String, String>) -> Result<Seq<char>, Seq<char>> {
    match r {
        Ok(s) => Ok(s@),
        Err(e) => Err(e@),
    }
}

/// Resolve model to use: config model if set and available, else first from list, else error.
pub fn ollama_resolve_model(list: Result<Vec<String>, String>, config_model: Option<&str>) -> (r:
    Result<String, String>)
    ensures
        result_view(r) == resolved_model(
            match list {
                Ok(l) => Ok(strings_view(l@)),
                Err(e) => Err(e@),
            },
            match config_model {
                Some(w) => Some(w@),
                None => None,
            },
        ),
{
    let names = match list {
        Ok(l) => l,
        Err(e) => {
            return Err(e);
        },
    };
    let ghost views = strings_view(names@);
    if names.len() == 0 {
        return Err("No models found. Pull a model with: ollama pull <name>".to_owned());
    }
    match config_model {
        Some(want) => {
            let want_s = want.to_owned();
            let mut i: usize = 0;
            while i < names.len()
                invariant
                    list == Ok::<Vec<String>, String>(names),
                    config_model == Some(want),
                    names@.len() > 0,
                    i <= names@.len(),
                    want_s@ == want@,
                    views == strings_view(names@),
                    forall|j: int| 0 <= j < i ==> views[j] != want@,
                decreases names.len() - i,
            {
                if names[i] == want_s {
                    assert(views[i as int] == want@);
                    assert(views.contains(want@));
                    assert(result_view(Ok(want_s)) == resolved_model(Ok(views), Some(want@)));
                    return Ok(want_s);
                }
                i = i + 1;
            }
            assert(!views.contains(want@));
            Ok(names[0].clone())
        },
        None => {
            let first = names[0].clone();
            Ok(first)
        },
    }
}

/// Build prompt for Ollama: system instruction + user message. Ollama uses a single "prompt" field.
pub fn ollama_build_prompt(system: &str, user: &str) -> (p: String)
    ensures
        p@ == system@ + "\n\n"@ + user@,
{
    let mut p = concat_str(system, "\n\n");
    p.append(user);
    p
}

pub fn openai_default_models() -> (v: Vec<String>)
    ensures
        strings_view(v@) == seq!["gpt-4o"@, "gpt-4o-mini"@, "gpt-4-turbo"@, "gpt-3.5-turbo"@],
{
    let v = vec![
        "gpt-4o".to_owned(),
        "gpt-4o-mini".to_owned(),
        "gpt-4-turbo".to_owned(),
        "gpt-3.5-turbo".to_owned(),
    ];
    assert(strings_view(v@) =~= seq!["gpt-4o"@, "gpt-4o-mini"@, "gpt-4-turbo"@, "gpt-3.5-turbo"@]);
    v
}

pub fn gemini_list_models() -> (v: Vec<String>)
    ensures
        strings_view(v@) == seq![
            "gemini-2.0-flash"@,
            "gemini-1.5-pro"@,
            "gemini-1.5-flash"@,
            "gemini-1.0-pro"@,
        ],
{
    let v = vec![
        "gemini-2.0-flash".to_owned(),
        "gemini-1.5-pro".to_owned(),
        "gemini-1.5-flash".to_owned(),
        "gemini-1.0-pro".to_owned(),
    ];
    assert(strings_view(v@) =~= seq![
        "gemini-2.0-flash"@,
        "gemini-1.5-pro"@,
        "gemini-1.5-flash"@,
        "gemini-1.0-pro"@,
    ]);
    v
}

pub fn groq_list_models() -> (v: Vec<String>)
    ensures
        strings_view(v@) == seq![
            "llama-3.3-70b-versatile"@,
            "llama-3.1-8b-instant"@,
            "mixtral-8x7b-32768"@,
        ],
{
    let v = vec![
        "llama-3.3-70b-versatile".to_owned(),
        "llama-3.1-8b-instant".to_owned(),
        "mixtral-8x7b-32768".to_owned(),
    ];
    assert(strings_view(v@) =~= seq![
        "llama-3.3-70b-versatile"@,
        "llama-3.1-8b-instant"@,
        "mixtral-8x7b-32768"@,
    ]);
    v
}

/// The names present among the listed entries, in order.
pub open spec fn present_names(entries: Seq<Option<String>>) -> Seq<Seq<char>>
    decreases entries.len(),
{
    if entries.len() == 0 {
        Seq::empty()
    } else {
        present_names(entries.drop_last()) + match entries.last() {
            Some(n) => seq![n@],
            None => Seq::empty(),
        }
    }
}

/// The string-valued names among `entries`.
pub fn present_strings(entries: &Vec<Option<String>>) -> (r: Vec<String>)
    ensures
        strings_view(r@) == present_names(entries@),
{
    let mut r: Vec<String> = Vec::new();
    let mut i: usize = 0;
    assert(entries@.take(0) =~= Seq::<Option<String>>::empty());
    while i < entries.len()
        invariant
            i <= entries@.len(),
            strings_view(r@) == present_names(entries@.take(i as int)),
        decreases entries.len() - i,
    {
        assert(entries@.take(i + 1).drop_last() =~= entries@.take(i as int));
        match &entries[i] {
            Some(n) => {
                r.push(n.clone());
            },
            None => {},
        }
        assert(strings_view(r@) =~= present_names(entries@.take(i + 1)));
        i = i + 1;
    }
    assert(entries@.take(entries@.len() as int) =~= entries@);
    r
}

/// The model names of Ollama's model listing: the `name` of each entry of its `models`
/// array that has a string name (`None`: no `models` array).
pub fn ollama_model_names(entries: Option<Vec<Option<String>>>) -> (r: Vec<String>)
    ensures
        strings_view(r@) == match entries {
            Some(e) => present_names(e@),
            None => Seq::empty(),
        },
{
    match entries {
        Some(e) => present_strings(&e),
        None => {
            let v: Vec<String> = Vec::new();
            assert(strings_view(v@) =~= Seq::<Seq<char>>::empty());
            v
        },
    }
}

/// A model id that names a GPT model.
pub open spec fn is_gpt_id(id: Seq<char>) -> bool {
    starts_with(id, "gpt-"@) || contains_seq(id, "gpt"@)
}

/// The GPT ids among `ids`, in order.
pub open spec fn gpt_ids(ids: Seq<Seq<char>>) -> Seq<Seq<char>>
    decreases ids.len(),
{
    if ids.len() == 0 {
        Seq::empty()
    } else {
        gpt_ids(ids.drop_last()) + if is_gpt_id(ids.last()) {
            seq![ids.last()]
        } else {
            Seq::empty()
        }
    }
}

/// The models offered for OpenAI: the GPT ids among those listed (`None`: the listing
/// failed or had no `data` array), or the default models when there are none.
pub open spec fn openai_models(data: Option<Seq<Option<String>>>) -> Seq<Seq<char>> {
    let defaults = seq!["gpt-4o"@, "gpt-4o-mini"@, "gpt-4-turbo"@, "gpt-3.5-turbo"@];
    match data {
        None => defaults,
        Some(d) => if gpt_ids(present_names(d)).len() == 0 {
            defaults
        } else {
            gpt_ids(present_names(d))
        },
    }
}

/// List OpenAI models (ids) from the `id`s of the listing's `data` array; falls back to a
/// static list.
pub fn openai_models_from_listing(data: Option<Vec<Option<String>>>) -> (r: Vec<String>)
    ensures
        strings_view(r@) == openai_models(
            match data {
                Some(d) => Some(d@),
                None => None,
            },
        ),
{
    let d = match data {
        Some(d) => d,
        None => {
            return openai_default_models();
        },
    };
    let names = present_strings(&d);
    let ghost views = strings_view(names@);
    let gpt_dash = chars_of("gpt-");
    let gpt = chars_of("gpt");
    let mut out: Vec<String> = Vec::new();
    let mut i: usize = 0;
    assert(views.take(0) =~= Seq::<Seq<char>>::empty());
    while i < names.len()
        invariant
            i <= names@.len(),
            views == strings_view(names@),
            gpt_dash@ == "gpt-"@,
            gpt@ == "gpt"@,
            strings_view(out@) == gpt_ids(views.take(i as int)),
        decreases names.len() - i,
    {
        let id = chars_of(names[i].as_str());
        assert(views.take(i + 1).drop_last() =~= views.take(i as int));
        assert(views.take(i + 1).last() == id@);
        if starts_with_exec(&id, &gpt_dash) || contains_exec(&id, &gpt) {
            out.push(names[i].clone());
        }
        assert(strings_view(out@) =~= gpt_ids(views.take(i + 1)));
        i = i + 1;
    }
    assert(views.take(names@.len() as int) =~= views);
    if out.len() == 0 {
        openai_default_models()
    } else {
        out
    }
}

// ---------------------------------------------------------------------------
// Requests and replies
// ---------------------------------------------------------------------------

/// `base` without trailing slashes, followed by `path`.
pub open spec fn endpoint(base: Seq<char>, path: Seq<char>) -> Seq<char> {
    trim_end_char(base, '/') + path
}

fn endpoint_url(base: &str, path: &str) -> (u: String)
    ensures
        u@ == endpoint(base@, path@),
{
    let v = chars_of(base);
    let e = skip_char_backward(&v, 0, v.len(), '/');
    assert(v@.subrange(0, v@.len() as int) =~= v@);
    let mut u = string_of_range(&v, 0, e);
    u.append(path);
    u
}

/// Ollama's model listing endpoint.
pub fn ollama_tags_url(base_url: &str) -> (u: String)
    ensures
        u@ == endpoint(base_url@, "/api/tags"@),
{
    endpoint_url(base_url, "/api/tags")
}

/// Ollama's generation endpoint.
pub fn ollama_generate_url(base_url: &str) -> (u: String)
    ensures
        u@ == endpoint(base_url@, "/api/generate"@),
{
    endpoint_url(base_url, "/api/generate")
}

/// The chat completions endpoint of an OpenAI-compatible API.
pub fn openai_chat_url(base_url: &str) -> (u: String)
    ensures
        u@ == endpoint(base_url@, "/chat/completions"@),
{
    endpoint_url(base_url, "/chat/completions")
}

/// The model listing endpoint of an OpenAI-compatible API.
pub fn openai_models_url(base_url: &str) -> (u: String)
    ensures
        u@ == endpoint(base_url@, "/models"@),
{
    endpoint_url(base_url, "/models")
}

/// Gemini's generateContent endpoint for `model`, authenticated by `api_key`.
pub fn gemini_generate_url(model: &str, api_key: &str) -> (u: String)
    ensures
        u@ == "https://generativelanguage.googleapis.com/v1beta/models/"@ + model@
            + ":generateContent?key="@ + api_key@,
{
    let mut u = concat_str("https://generativelanguage.googleapis.com/v1beta/models/", model);
    u.append(":generateContent?key=");
    u.append(api_key);
    u
}

/// The `Authorization` header value for `api_key`.
pub fn bearer_auth(api_key: &str) -> (h: String)
    ensures
        h@ == "Bearer "@ + api_key@,
{
    concat_str("Bearer ", api_key)
}

/// Error when the model replied nothing usable.
pub open spec fn empty_reply_message() -> Seq<char> {
    "Model returned empty response"@
}

/// The command in a model's reply text (`None`: the reply had no text): the text without
/// markdown fence or shell tag, or an error when nothing is left.
pub open spec fn reply_command(raw: Option<Seq<char>>) -> Result<Seq<char>, Seq<char>> {
    let text = stripped_code(
        match raw {
            Some(t) => t,
            None => Seq::empty(),
        },
    );
    if text.len() == 0 {
        Err(empty_reply_message())
    } else {
        Ok(text)
    }
}

/// Cleans the text of a model's reply into one command.
pub fn model_reply_text(raw: Option<&str>) -> (r: Result<String, String>)
    ensures
        result_view(r) == reply_command(
            match raw {
                Some(t) => Some(t@),
                None => None,
            },
        ),
{
    let text = match raw {
        Some(t) => strip_code_blocks(t),
        None => strip_code_blocks(""),
    };
    proof {
        if raw is None {
            assert(""@.len() == 0) by {
                reveal_strlit("");
            }
            assert(""@ =~= Seq::<char>::empty());
        }
    }
    if text.unicode_len() == 0 {
        Err("Model returned empty response".to_owned())
    } else {
        Ok(text)
    }
}

} // verus!
