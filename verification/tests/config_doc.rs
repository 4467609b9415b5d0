use chameleon::config_doc::{remove_provider, set_provider_api_key, ConfigValue};

fn table(entries: Vec<(&str, ConfigValue)>) -> ConfigValue {
    ConfigValue::Table(entries.into_iter().map(|(k, v)| (k.to_string(), v)).collect())
}

fn text(s: &str) -> ConfigValue {
    ConfigValue::Text(s.to_string())
}

fn get<'a>(v: &'a ConfigValue, k: &str) -> Option<&'a ConfigValue> {
    match v {
        ConfigValue::Table(e) => e.iter().find(|(n, _)| n == k).map(|(_, v)| v),
        _ => None,
    }
}

fn path<'a>(v: &'a ConfigValue, keys: &[&str]) -> Option<&'a ConfigValue> {
    let mut cur = v;
    for k in keys {
        cur = get(cur, k)?;
    }
    Some(cur)
}

fn text_at(v: &ConfigValue, keys: &[&str]) -> Option<String> {
    match path(v, keys) {
        Some(ConfigValue::Text(s)) => Some(s.clone()),
        _ => None,
    }
}

fn error_of<T>(r: Result<T, String>) -> String {
    match r {
        Err(e) => e,
        Ok(_) => panic!("expected an error"),
    }
}

#[test]
fn save_key_into_empty_document() {
    let doc = set_provider_api_key(table(vec![]), "openai", "sk-1").ok().unwrap();
    assert_eq!(text_at(&doc, &["ai", "providers", "openai", "api_key"]), Some("sk-1".to_string()));
}

#[test]
fn save_key_keeps_other_entries() {
    let doc = table(vec![
        ("theme", table(vec![("default_foreground", text("#cccccc")), ("font_size", ConfigValue::Other(0))])),
        (
            "ai",
            table(vec![
                ("backend", text("groq")),
                (
                    "providers",
                    table(vec![
                        ("groq", table(vec![("api_key", text("gk"))])),
                        ("openai", table(vec![("api_key", text("old")), ("base_url", text("https://proxy"))])),
                    ]),
                ),
            ]),
        ),
    ]);
    let doc = set_provider_api_key(doc, "openai", "new").ok().unwrap();
    assert_eq!(text_at(&doc, &["ai", "providers", "openai", "api_key"]), Some("new".to_string()));
    assert_eq!(text_at(&doc, &["ai", "providers", "openai", "base_url"]), Some("https://proxy".to_string()));
    assert_eq!(text_at(&doc, &["ai", "providers", "groq", "api_key"]), Some("gk".to_string()));
    assert_eq!(text_at(&doc, &["ai", "backend"]), Some("groq".to_string()));
    assert_eq!(text_at(&doc, &["theme", "default_foreground"]), Some("#cccccc".to_string()));
    assert!(matches!(path(&doc, &["theme", "font_size"]), Some(ConfigValue::Other(0))));
}

#[test]
fn save_key_errors() {
    assert_eq!(error_of(set_provider_api_key(text("x"), "gemini", "k")), "config root is not a table");
    assert_eq!(
        error_of(set_provider_api_key(table(vec![("ai", text("x"))]), "gemini", "k")),
        "ai is not a table"
    );
    assert_eq!(
        error_of(set_provider_api_key(table(vec![("ai", table(vec![("providers", ConfigValue::Other(3))]))]), "gemini", "k")),
        "ai.providers is not a table"
    );
    let doc = table(vec![("ai", table(vec![("providers", table(vec![("gemini", text("k"))]))]))]);
    assert_eq!(error_of(set_provider_api_key(doc, "gemini", "k")), "provider entry is not a table");
}

#[test]
fn remove_provider_cases() {
    assert!(matches!(remove_provider(table(vec![("theme", table(vec![]))]), "openai"), Ok(None)));
    assert!(matches!(remove_provider(table(vec![("ai", table(vec![]))]), "openai"), Ok(None)));
    assert_eq!(error_of(remove_provider(ConfigValue::Other(1), "openai")), "config root is not a table");
    assert_eq!(error_of(remove_provider(table(vec![("ai", text("x"))]), "openai")), "ai is not a table");
    assert_eq!(
        error_of(remove_provider(table(vec![("ai", table(vec![("providers", text("x"))]))]), "openai")),
        "ai.providers is not a table"
    );
    let doc = table(vec![(
        "ai",
        table(vec![(
            "providers",
            table(vec![
                ("openai", table(vec![("api_key", text("sk"))])),
                ("groq", table(vec![("api_key", text("gk"))])),
            ]),
        )]),
    )]);
    let doc = remove_provider(doc, "openai").ok().unwrap().unwrap();
    assert!(path(&doc, &["ai", "providers", "openai"]).is_none());
    assert_eq!(text_at(&doc, &["ai", "providers", "groq", "api_key"]), Some("gk".to_string()));
}

#[test]
fn remove_undoes_save() {
    let doc = table(vec![("ai", table(vec![("model", text("llama3"))]))]);
    let saved = set_provider_api_key(doc, "gemini", "g-key").ok().unwrap();
    assert_eq!(text_at(&saved, &["ai", "providers", "gemini", "api_key"]), Some("g-key".to_string()));
    let removed = remove_provider(saved, "gemini").ok().unwrap().unwrap();
    assert!(path(&removed, &["ai", "providers", "gemini"]).is_none());
    assert_eq!(text_at(&removed, &["ai", "model"]), Some("llama3".to_string()));
}

#[test]
fn save_twice_is_save_once() {
    let once = set_provider_api_key(table(vec![]), "groq", "k").ok().unwrap();
    let twice = set_provider_api_key(set_provider_api_key(table(vec![]), "groq", "k").ok().unwrap(), "groq", "k")
        .ok()
        .unwrap();
    assert_eq!(
        text_at(&once, &["ai", "providers", "groq", "api_key"]),
        text_at(&twice, &["ai", "providers", "groq", "api_key"])
    );
    match path(&twice, &["ai", "providers", "groq"]) {
        Some(ConfigValue::Table(e)) => assert_eq!(e.len(), 1),
        _ => panic!("expected the provider table"),
    }
}

#[test]
fn saved_tables_keep_names_unique() {
    let doc = table(vec![("ai", table(vec![("providers", table(vec![("groq", table(vec![("api_key", text("a"))]))]))]))]);
    let doc = set_provider_api_key(doc, "groq", "b").ok().unwrap();
    for keys in [vec!["ai"], vec!["ai", "providers"], vec!["ai", "providers", "groq"]] {
        match path(&doc, &keys) {
            Some(ConfigValue::Table(e)) => {
                let mut names: Vec<&String> = e.iter().map(|(n, _)| n).collect();
                let n = names.len();
                names.sort();
                names.dedup();
                assert_eq!(names.len(), n);
            }
            _ => panic!("expected a table"),
        }
    }
    assert_eq!(text_at(&doc, &["ai", "providers", "groq", "api_key"]), Some("b".to_string()));
}
