use chameleon::ai::{
    ai_config_from_section, available_backends, bearer_auth, configured_api_backends,
    gemini_generate_url, gemini_list_models, groq_list_models, model_reply_text,
    ollama_build_prompt, ollama_generate_url, ollama_model_names, ollama_resolve_model,
    ollama_tags_url, openai_chat_url, openai_default_models, openai_models_from_listing,
    openai_models_url, AiBackend, AiConfig, AiProvidersSection, AiSection, BackendChoice,
    EnvApiKeys, ProviderConfig,
};

fn provider(key: Option<&str>, url: Option<&str>) -> ProviderConfig {
    ProviderConfig {
        api_key: key.map(|s| s.to_string()),
        base_url: url.map(|s| s.to_string()),
        model: None,
    }
}

fn no_env() -> EnvApiKeys {
    EnvApiKeys { openai: None, gemini: None, groq: None }
}

fn config(providers: AiProvidersSection) -> AiConfig {
    AiConfig {
        ollama_base_url: "http://127.0.0.1:11434".to_string(),
        default_backend: AiBackend::Ollama,
        default_model: None,
        providers,
    }
}

#[test]
fn backend_names() {
    assert_eq!(AiBackend::from_str(" OpenAI "), Some(AiBackend::OpenAi));
    assert_eq!(AiBackend::from_str("ollama"), Some(AiBackend::Ollama));
    assert_eq!(AiBackend::from_str("GEMINI\n"), Some(AiBackend::Gemini));
    assert_eq!(AiBackend::from_str("groq"), Some(AiBackend::Groq));
    assert_eq!(AiBackend::from_str("mistral"), None);
    assert_eq!(AiBackend::from_lowercase_name("Groq"), None);
    assert_eq!(AiBackend::OpenAi.name(), "OpenAI");
    assert_eq!(AiBackend::Ollama.name(), "Ollama");
    assert_eq!(AiBackend::Gemini.provider_name(), "gemini");
    assert_eq!(AiBackend::Groq.key_env_var(), "GROQ_API_KEY");
}

#[test]
fn api_keys_prefer_environment() {
    let c = config(AiProvidersSection {
        openai: Some(provider(Some("file-key"), Some("https://proxy/v1/"))),
        gemini: Some(provider(None, None)),
        groq: None,
    });
    let env = EnvApiKeys { openai: Some("env-key".to_string()), gemini: None, groq: None };
    assert_eq!(c.openai_api_key(&env), Some("env-key".to_string()));
    assert_eq!(c.openai_api_key(&no_env()), Some("file-key".to_string()));
    assert_eq!(c.gemini_api_key(&no_env()), None);
    assert_eq!(c.groq_api_key(&no_env()), None);
    assert!(c.is_configured(AiBackend::Ollama, &no_env()));
    assert!(c.is_configured(AiBackend::OpenAi, &no_env()));
    assert!(!c.is_configured(AiBackend::Gemini, &no_env()));
    let env = EnvApiKeys { openai: None, gemini: None, groq: Some("g".to_string()) };
    assert!(c.is_configured(AiBackend::Groq, &env));
    assert_eq!(c.openai_base_url(), "https://proxy/v1/");
    assert_eq!(c.groq_base_url(), "https://api.groq.com/openai/v1");
    let d = config(AiProvidersSection::empty());
    assert_eq!(d.openai_base_url(), "https://api.openai.com/v1");
}

#[test]
fn backend_picker_entries() {
    let none = config(AiProvidersSection::empty());
    let listed: Result<Vec<String>, String> = Ok(vec!["llama3".to_string()]);
    let empty: Result<Vec<String>, String> = Ok(vec![]);
    let failed: Result<Vec<String>, String> = Err("down".to_string());
    assert_eq!(
        available_backends(&none, &no_env(), &listed),
        vec![BackendChoice::Backend(AiBackend::Ollama), BackendChoice::ConfigureApi]
    );
    assert_eq!(available_backends(&none, &no_env(), &empty), vec![BackendChoice::ConfigureApi]);
    assert_eq!(available_backends(&none, &no_env(), &failed), vec![BackendChoice::ConfigureApi]);
    let env = EnvApiKeys { openai: None, gemini: Some("k".to_string()), groq: Some("k".to_string()) };
    assert_eq!(
        available_backends(&none, &env, &failed),
        vec![
            BackendChoice::Backend(AiBackend::Gemini),
            BackendChoice::Backend(AiBackend::Groq),
            BackendChoice::ConfigureApi,
            BackendChoice::RemoveApi,
        ]
    );
    assert_eq!(configured_api_backends(&none, &env), vec![AiBackend::Gemini, AiBackend::Groq]);
}

#[test]
fn config_from_section() {
    let c = ai_config_from_section(None);
    assert_eq!(c.ollama_base_url, "http://127.0.0.1:11434");
    assert_eq!(c.default_backend, AiBackend::Ollama);
    assert!(c.default_model.is_none());
    let c = ai_config_from_section(Some(AiSection {
        model: Some("gpt-4o".to_string()),
        backend: Some(" OpenAI".to_string()),
        base_url: Some("http://box:11434".to_string()),
        providers: Some(AiProvidersSection {
            openai: Some(provider(Some("k"), None)),
            gemini: None,
            groq: None,
        }),
    }));
    assert_eq!(c.ollama_base_url, "http://box:11434");
    assert_eq!(c.default_backend, AiBackend::OpenAi);
    assert_eq!(c.default_model, Some("gpt-4o".to_string()));
    assert_eq!(c.openai_api_key(&no_env()), Some("k".to_string()));
    let c = ai_config_from_section(Some(AiSection {
        model: None,
        backend: Some("mystery".to_string()),
        base_url: None,
        providers: None,
    }));
    assert_eq!(c.default_backend, AiBackend::Ollama);
    assert_eq!(c.ollama_base_url, "http://127.0.0.1:11434");
}

#[test]
fn resolve_ollama_model() {
    let list = || Ok(vec!["llama3:latest".to_string(), "qwen2".to_string()]);
    assert_eq!(ollama_resolve_model(list(), None), Ok("llama3:latest".to_string()));
    assert_eq!(ollama_resolve_model(list(), Some("qwen2")), Ok("qwen2".to_string()));
    assert_eq!(ollama_resolve_model(list(), Some("mistral")), Ok("llama3:latest".to_string()));
    assert_eq!(
        ollama_resolve_model(Ok(vec![]), Some("x")),
        Err("No models found. Pull a model with: ollama pull <name>".to_string())
    );
    assert_eq!(ollama_resolve_model(Err("offline".to_string()), None), Err("offline".to_string()));
}

#[test]
fn model_lists() {
    assert_eq!(openai_default_models(), vec!["gpt-4o", "gpt-4o-mini", "gpt-4-turbo", "gpt-3.5-turbo"]);
    assert_eq!(gemini_list_models(), vec!["gemini-2.0-flash", "gemini-1.5-pro", "gemini-1.5-flash", "gemini-1.0-pro"]);
    assert_eq!(groq_list_models(), vec!["llama-3.3-70b-versatile", "llama-3.1-8b-instant", "mixtral-8x7b-32768"]);
    assert_eq!(
        ollama_model_names(Some(vec![Some("a".to_string()), None, Some("b".to_string())])),
        vec!["a", "b"]
    );
    assert_eq!(ollama_model_names(None), Vec::<String>::new());
    assert_eq!(
        openai_models_from_listing(Some(vec![
            Some("whisper-1".to_string()),
            Some("gpt-4o".to_string()),
            None,
            Some("chatgpt-4o-latest".to_string()),
        ])),
        vec!["gpt-4o", "chatgpt-4o-latest"]
    );
    assert_eq!(openai_models_from_listing(Some(vec![Some("dall-e-3".to_string())])), openai_default_models());
    assert_eq!(openai_models_from_listing(None), openai_default_models());
}

#[test]
fn request_urls_and_prompts() {
    assert_eq!(ollama_tags_url("http://h:1//"), "http://h:1/api/tags");
    assert_eq!(ollama_generate_url("http://h:1"), "http://h:1/api/generate");
    assert_eq!(openai_chat_url("https://api.openai.com/v1/"), "https://api.openai.com/v1/chat/completions");
    assert_eq!(openai_models_url("https://x/v1"), "https://x/v1/models");
    assert_eq!(
        gemini_generate_url("gemini-1.5-pro", "KEY"),
        "https://generativelanguage.googleapis.com/v1beta/models/gemini-1.5-pro:generateContent?key=KEY"
    );
    assert_eq!(bearer_auth("sk-1"), "Bearer sk-1");
    assert_eq!(ollama_build_prompt("sys", "list files"), "sys\n\nlist files");
}

#[test]
fn reply_cleaning() {
    assert_eq!(model_reply_text(Some("  ```bash\nls -la\n```  ")), Ok("ls -la".to_string()));
    assert_eq!(model_reply_text(Some("   ")), Err("Model returned empty response".to_string()));
    assert_eq!(model_reply_text(None), Err("Model returned empty response".to_string()));
    assert_eq!(model_reply_text(Some("git status")), Ok("git status".to_string()));
    assert_eq!(model_reply_text(Some("shutdown -h now")), Ok("shutdown -h now".to_string()));
    assert_eq!(model_reply_text(Some("```sh\nshutdown -h now\n```")), Ok("shutdown -h now".to_string()));
}

#[test]
fn backend_name_round_trip() {
    for b in [AiBackend::Ollama, AiBackend::OpenAi, AiBackend::Gemini, AiBackend::Groq] {
        assert_eq!(AiBackend::from_str(b.name()), Some(b));
        assert_eq!(AiBackend::from_str(&format!("  {} ", b.name().to_uppercase())), Some(b));
    }
    assert_eq!(AiBackend::from_str("  GROQ "), Some(AiBackend::Groq));
}
