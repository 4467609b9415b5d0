use chameleon::ai::{AiBackend, AiConfig, AiProvidersSection, BackendChoice, EnvApiKeys, ProviderConfig};
use chameleon::ai_bar::{
    backends_listed, bar_is_drawn, bar_title, command_system_prompt, current_model_label, enter_would_panic,
    generation_finished,
    is_control, key_removed, key_saved, models_listed, on_key, open_prompt, plan_generation,
    AiAction, AiMode, BarKey, ConfigApiStep, GenerationPlan,
};

fn no_env() -> EnvApiKeys {
    EnvApiKeys { openai: None, gemini: None, groq: None }
}

fn config() -> AiConfig {
    AiConfig {
        ollama_base_url: "http://localhost:11434".to_string(),
        default_backend: AiBackend::Ollama,
        default_model: None,
        providers: AiProvidersSection {
            openai: None,
            gemini: Some(ProviderConfig {
                api_key: Some("gem-key".to_string()),
                base_url: None,
                model: None,
            }),
            groq: None,
        },
    }
}

fn press(mode: AiMode, key: BarKey) -> (AiMode, AiAction) {
    on_key(mode, key, &config(), &no_env())
}

fn type_text(mut mode: AiMode, text: &str) -> AiMode {
    for c in text.chars() {
        mode = press(mode, BarKey::Char(c)).0;
    }
    mode
}

fn prompt_text(mode: &AiMode) -> Option<String> {
    match mode {
        AiMode::PromptInput { buffer } => Some(buffer.clone()),
        _ => None,
    }
}

#[test]
fn ctrl_k_opens_prompt_only_when_idle() {
    let m = open_prompt(AiMode::Idle);
    assert_eq!(prompt_text(&m), Some(String::new()));
    let m = open_prompt(AiMode::Thinking);
    assert!(matches!(m, AiMode::Thinking));
}

#[test]
fn typing_and_backspace_in_prompt() {
    let m = type_text(open_prompt(AiMode::Idle), "ls -la");
    assert_eq!(prompt_text(&m), Some("ls -la".to_string()));
    let m = press(m, BarKey::Char('\u{7}')).0;
    assert_eq!(prompt_text(&m), Some("ls -la".to_string()));
    let m = press(m, BarKey::Backspace).0;
    assert_eq!(prompt_text(&m), Some("ls -l".to_string()));
    let m = press(AiMode::PromptInput { buffer: String::new() }, BarKey::Backspace).0;
    assert_eq!(prompt_text(&m), Some(String::new()));
    assert!(is_control('\u{1b}'));
    assert!(is_control('\u{85}'));
    assert!(!is_control('é'));
}

#[test]
fn enter_on_prompt() {
    let (m, a) = press(AiMode::PromptInput { buffer: "   ".to_string() }, BarKey::Enter);
    assert!(matches!(m, AiMode::Idle));
    assert!(matches!(a, AiAction::Nothing));
    let (m, a) = press(AiMode::PromptInput { buffer: " /model ".to_string() }, BarKey::Enter);
    assert!(matches!(m, AiMode::PromptInput { .. }));
    assert!(matches!(a, AiAction::ListBackends));
    let (_, a) = press(AiMode::PromptInput { buffer: "/models".to_string() }, BarKey::Enter);
    assert!(matches!(a, AiAction::ListBackends));
    let (m, a) = press(AiMode::PromptInput { buffer: "  list files ".to_string() }, BarKey::Enter);
    assert!(matches!(m, AiMode::Thinking));
    match a {
        AiAction::Generate { prompt } => assert_eq!(prompt, "list files"),
        _ => panic!("expected a generation"),
    }
}

#[test]
fn esc_dismisses_every_mode_but_thinking() {
    let modes = vec![
        AiMode::PromptInput { buffer: "x".to_string() },
        AiMode::SuggestionReady { command: "ls".to_string() },
        AiMode::Error { message: "e".to_string() },
        AiMode::BackendPicker { choices: vec![BackendChoice::ConfigureApi], selected: 0 },
        AiMode::ModelPicker { backend: AiBackend::Groq, models: vec!["m".to_string()], selected: 0 },
        AiMode::RemoveApiPicker { backends: vec![AiBackend::Gemini], selected: 0 },
        AiMode::ConfigApiWizard { step: ConfigApiStep::ChooseProvider { selected: 1 } },
        AiMode::ConfigApiWizard {
            step: ConfigApiStep::EnterKey { provider: AiBackend::Groq, key_buffer: "k".to_string() },
        },
        AiMode::ConfigApiWizard { step: ConfigApiStep::Done { message: "d".to_string() } },
    ];
    for m in modes {
        let (m, a) = press(m, BarKey::Esc);
        assert!(matches!(m, AiMode::Idle));
        assert!(matches!(a, AiAction::Nothing));
    }
    let (m, a) = press(AiMode::Thinking, BarKey::Esc);
    assert!(matches!(m, AiMode::Thinking));
    assert!(matches!(a, AiAction::Nothing));
}

#[test]
fn suggestion_runs_on_enter() {
    let (m, a) = press(AiMode::SuggestionReady { command: "git status".to_string() }, BarKey::Enter);
    assert!(matches!(m, AiMode::Idle));
    match a {
        AiAction::RunCommand { command } => assert_eq!(command, "git status"),
        _ => panic!("expected the command to run"),
    }
    let (m, _) = press(AiMode::SuggestionReady { command: "ls".to_string() }, BarKey::Up);
    assert!(matches!(m, AiMode::SuggestionReady { .. }));
}

#[test]
fn backend_picker_navigation() {
    let choices = vec![
        BackendChoice::Backend(AiBackend::Ollama),
        BackendChoice::Backend(AiBackend::Gemini),
        BackendChoice::ConfigureApi,
    ];
    let m = backends_listed(choices);
    let m = press(m, BarKey::Up).0;
    assert!(matches!(m, AiMode::BackendPicker { selected: 0, .. }));
    let m = press(m, BarKey::Down).0;
    let m = press(m, BarKey::Down).0;
    let m = press(m, BarKey::Down).0;
    assert!(matches!(m, AiMode::BackendPicker { selected: 2, .. }));
    let m = press(m, BarKey::Up).0;
    assert!(matches!(m, AiMode::BackendPicker { selected: 1, .. }));
    let (m, a) = press(m, BarKey::Enter);
    assert!(matches!(a, AiAction::Nothing));
    match m {
        AiMode::ModelPicker { backend, models, selected } => {
            assert_eq!(backend, AiBackend::Gemini);
            assert_eq!(models[0], "gemini-2.0-flash");
            assert_eq!(models.len(), 4);
            assert_eq!(selected, 0);
        }
        _ => panic!("expected the model picker"),
    }
}

#[test]
fn down_then_up_returns() {
    let m = AiMode::ConfigApiWizard { step: ConfigApiStep::ChooseProvider { selected: 0 } };
    let m = press(press(m, BarKey::Down).0, BarKey::Up).0;
    assert!(matches!(m, AiMode::ConfigApiWizard { step: ConfigApiStep::ChooseProvider { selected: 0 } }));
    let m = AiMode::ConfigApiWizard { step: ConfigApiStep::ChooseProvider { selected: 2 } };
    let m = press(m, BarKey::Down).0;
    assert!(matches!(m, AiMode::ConfigApiWizard { step: ConfigApiStep::ChooseProvider { selected: 2 } }));
}

#[test]
fn backend_picker_choices() {
    let m = AiMode::BackendPicker {
        choices: vec![
            BackendChoice::Backend(AiBackend::Ollama),
            BackendChoice::Backend(AiBackend::Groq),
            BackendChoice::ConfigureApi,
            BackendChoice::RemoveApi,
        ],
        selected: 0,
    };
    let (m, a) = press(m, BarKey::Enter);
    assert!(matches!(m, AiMode::BackendPicker { .. }));
    assert!(matches!(a, AiAction::ListModels { backend: AiBackend::Ollama }));
    let m = press(m, BarKey::Down).0;
    let (m2, _) = press(m, BarKey::Enter);
    match m2 {
        AiMode::ModelPicker { backend, models, .. } => {
            assert_eq!(backend, AiBackend::Groq);
            assert_eq!(models, vec!["llama-3.3-70b-versatile", "llama-3.1-8b-instant", "mixtral-8x7b-32768"]);
        }
        _ => panic!("expected the Groq models"),
    }
    let m = AiMode::BackendPicker {
        choices: vec![BackendChoice::ConfigureApi, BackendChoice::RemoveApi],
        selected: 0,
    };
    let (w, _) = press(m, BarKey::Enter);
    assert!(matches!(w, AiMode::ConfigApiWizard { step: ConfigApiStep::ChooseProvider { selected: 0 } }));
    let m = AiMode::BackendPicker {
        choices: vec![BackendChoice::ConfigureApi, BackendChoice::RemoveApi],
        selected: 1,
    };
    let (r, _) = press(m, BarKey::Enter);
    match r {
        AiMode::RemoveApiPicker { backends, selected } => {
            assert_eq!(backends, vec![AiBackend::Gemini]);
            assert_eq!(selected, 0);
        }
        _ => panic!("expected the remove picker"),
    }
}

#[test]
fn model_and_remove_pickers() {
    let m = AiMode::ModelPicker {
        backend: AiBackend::OpenAi,
        models: vec!["gpt-4o".to_string(), "gpt-4o-mini".to_string()],
        selected: 0,
    };
    let m = press(m, BarKey::Down).0;
    let (m, a) = press(m, BarKey::Enter);
    assert!(matches!(m, AiMode::Idle));
    match a {
        AiAction::UseModel { backend, model } => {
            assert_eq!(backend, AiBackend::OpenAi);
            assert_eq!(model, "gpt-4o-mini");
        }
        _ => panic!("expected a model choice"),
    }
    let m = AiMode::RemoveApiPicker { backends: vec![AiBackend::OpenAi, AiBackend::Groq], selected: 1 };
    let (m, a) = press(m, BarKey::Enter);
    assert!(matches!(m, AiMode::RemoveApiPicker { .. }));
    assert!(matches!(a, AiAction::RemoveKey { backend: AiBackend::Groq }));
    let (m, reload) = key_removed(Ok(()));
    assert!(reload);
    assert!(matches!(m, AiMode::Idle));
    let (m, reload) = key_removed(Err("denied".to_string()));
    assert!(!reload);
    match m {
        AiMode::Error { message } => assert_eq!(message, "Remove failed: denied"),
        _ => panic!("expected an error"),
    }
}

#[test]
fn configure_api_wizard() {
    let m = AiMode::ConfigApiWizard { step: ConfigApiStep::ChooseProvider { selected: 0 } };
    let m = press(m, BarKey::Down).0;
    let m = press(m, BarKey::Down).0;
    let m = press(m, BarKey::Enter).0;
    assert!(matches!(
        m,
        AiMode::ConfigApiWizard { step: ConfigApiStep::EnterKey { provider: AiBackend::Groq, .. } }
    ));
    let (m, a) = press(m, BarKey::Enter);
    assert!(matches!(a, AiAction::Nothing));
    match m {
        AiMode::ConfigApiWizard { step: ConfigApiStep::Done { message } } => {
            assert_eq!(message, "Set GROQ_API_KEY env var or add key in config.")
        }
        _ => panic!("expected the missing-key message"),
    }
    let m = AiMode::ConfigApiWizard {
        step: ConfigApiStep::EnterKey { provider: AiBackend::OpenAi, key_buffer: String::new() },
    };
    let m = type_text(m, " sk-1x");
    let m = press(m, BarKey::Backspace).0;
    let (m, a) = press(m, BarKey::Enter);
    assert!(matches!(m, AiMode::ConfigApiWizard { step: ConfigApiStep::EnterKey { .. } }));
    match a {
        AiAction::SaveKey { backend, key } => {
            assert_eq!(backend, AiBackend::OpenAi);
            assert_eq!(key, "sk-1");
        }
        _ => panic!("expected the key to be saved"),
    }
    let (m, reload) = key_saved(AiBackend::OpenAi, Ok(()));
    assert!(reload);
    match &m {
        AiMode::ConfigApiWizard { step: ConfigApiStep::Done { message } } => {
            assert_eq!(message, "OpenAI configured. Use /model to select.")
        }
        _ => panic!("expected the done message"),
    }
    let (m, _) = press(m, BarKey::Enter);
    assert!(matches!(m, AiMode::Idle));
    let (m, reload) = key_saved(AiBackend::Gemini, Err("read-only".to_string()));
    assert!(!reload);
    match m {
        AiMode::ConfigApiWizard { step: ConfigApiStep::Done { message } } => {
            assert_eq!(message, "Save failed: read-only")
        }
        _ => panic!("expected the failure message"),
    }
}

#[test]
fn listing_and_generation_results() {
    let m = models_listed(AiBackend::Ollama, Ok(vec!["llama3".to_string()]));
    assert!(matches!(m, AiMode::ModelPicker { backend: AiBackend::Ollama, selected: 0, .. }));
    let m = models_listed(AiBackend::Ollama, Ok(vec![]));
    match m {
        AiMode::Error { message } => {
            assert_eq!(message, "No Ollama models. Pull one with: ollama pull <name>")
        }
        _ => panic!("expected an error"),
    }
    let m = models_listed(AiBackend::Ollama, Err("connection refused".to_string()));
    assert!(matches!(m, AiMode::Error { .. }));
    let m = generation_finished(AiMode::Thinking, Ok("ls".to_string()));
    assert!(matches!(m, AiMode::SuggestionReady { .. }));
    let m = generation_finished(AiMode::Thinking, Err("timeout".to_string()));
    match m {
        AiMode::Error { message } => assert_eq!(message, "timeout"),
        _ => panic!("expected an error"),
    }
    let m = generation_finished(AiMode::Idle, Ok("ls".to_string()));
    assert!(matches!(m, AiMode::Idle));
}

#[test]
fn generation_plans() {
    let c = config();
    match plan_generation(&c, &no_env(), None, &None) {
        Ok(GenerationPlan::Ollama { base_url, wanted_model }) => {
            assert_eq!(base_url, "http://localhost:11434");
            assert_eq!(wanted_model, None);
        }
        _ => panic!("expected Ollama"),
    }
    match plan_generation(&c, &no_env(), Some(AiBackend::Gemini), &None) {
        Ok(GenerationPlan::Gemini { api_key, model }) => {
            assert_eq!(api_key, "gem-key");
            assert_eq!(model, "gemini-2.0-flash");
        }
        _ => panic!("expected Gemini"),
    }
    match plan_generation(&c, &no_env(), Some(AiBackend::OpenAi), &Some("gpt-4o".to_string())) {
        Err(e) => assert_eq!(e, "Set OPENAI_API_KEY or configure in /model \u{2192} Configure API"),
        _ => panic!("expected a missing key"),
    }
    let env = EnvApiKeys { openai: None, gemini: None, groq: Some("gk".to_string()) };
    match plan_generation(&c, &env, Some(AiBackend::Groq), &None) {
        Ok(GenerationPlan::OpenAiCompatible { base_url, api_key, model }) => {
            assert_eq!(base_url, "https://api.groq.com/openai/v1");
            assert_eq!(api_key, "gk");
            assert_eq!(model, "llama-3.3-70b-versatile");
        }
        _ => panic!("expected Groq"),
    }
    assert!(command_system_prompt().starts_with("You are a shell assistant."));
}

#[test]
fn model_label_and_titles() {
    let mut c = config();
    assert_eq!(current_model_label(&c, None, &None), None);
    c.default_model = Some("llama3.2:latest".to_string());
    assert_eq!(
        current_model_label(&c, None, &None),
        Some("Ollama \u{b7} llama3.2:latest".to_string())
    );
    assert_eq!(
        current_model_label(&c, Some(AiBackend::Groq), &Some("mixtral".to_string())),
        Some("Groq \u{b7} mixtral".to_string())
    );
    assert_eq!(bar_title(&AiMode::Thinking), "  Command instructions");
    assert_eq!(bar_title(&AiMode::RemoveApiPicker { backends: vec![], selected: 0 }), "  Remove API");
    assert_eq!(
        bar_title(&AiMode::ConfigApiWizard { step: ConfigApiStep::ChooseProvider { selected: 0 } }),
        "  Configure API"
    );
}

#[test]
fn enter_on_empty_pickers_is_detected() {
    assert!(enter_would_panic(&AiMode::ModelPicker { backend: AiBackend::Ollama, models: vec![], selected: 0 }));
    assert!(enter_would_panic(&AiMode::RemoveApiPicker { backends: vec![], selected: 0 }));
    assert!(enter_would_panic(&AiMode::BackendPicker { choices: vec![], selected: 0 }));
    assert!(!enter_would_panic(&AiMode::BackendPicker { choices: vec![BackendChoice::ConfigureApi], selected: 0 }));
    assert!(!enter_would_panic(&AiMode::Thinking));
}

#[test]
fn bar_drawn_unless_idle() {
    assert!(!bar_is_drawn(&AiMode::Idle));
    assert!(bar_is_drawn(&AiMode::Thinking));
    assert!(bar_is_drawn(&AiMode::PromptInput { buffer: String::new() }));
}
