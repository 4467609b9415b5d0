use chameleon::ai::{AiBackend, BackendChoice};
use chameleon::ai_bar::{AiMode, ConfigApiStep};
use chameleon::bar_view::{
    bar_lines, bar_lines_would_panic, byte_boundary, clip_text, clip_would_panic, end_clip_text,
    end_clip_would_panic, picker_labels,
};

#[test]
fn clipping_by_bytes() {
    assert_eq!(clip_text("hello world", 20, 19), "hello world");
    assert_eq!(clip_text("hello world", 5, 4), "hell\u{2026}");
    assert_eq!(clip_text("hello", 5, 4), "hello");
    assert_eq!(clip_text("h\u{e9}llo", 4, 3), "h\u{e9}\u{2026}");
    assert!(clip_would_panic("h\u{e9}llo", 4, 2));
    assert!(!clip_would_panic("h\u{e9}llo", 6, 2));
    assert!(clip_would_panic("abc", 1, 9));
    assert!(byte_boundary("h\u{e9}llo", 3));
    assert!(!byte_boundary("h\u{e9}llo", 2));
    assert!(byte_boundary("", 0));
    assert!(!byte_boundary("ab", 3));
}

#[test]
fn clipping_keeps_the_end() {
    assert_eq!(end_clip_text("abcdefgh", 4), "fgh\u{2026}");
    assert_eq!(end_clip_text("abcd", 4), "abcd");
    assert_eq!(end_clip_text("abc", 0), "\u{2026}");
    assert!(end_clip_would_panic("ab\u{e9}", 2));
    assert!(!end_clip_would_panic("\u{e9}ab", 3));
}

#[test]
fn prompt_lines() {
    let m = AiMode::PromptInput { buffer: String::new() };
    assert_eq!(
        bar_lines(&m, 62, Some("Ollama \u{b7} llama3")),
        ("  \u{203a} _".to_string(), "  model: Ollama \u{b7} llama3".to_string(), true)
    );
    let m = AiMode::PromptInput { buffer: "find big files".to_string() };
    assert_eq!(bar_lines(&m, 10, None), ("  \u{203a} les\u{2026}_".to_string(), String::new(), false));
    assert_eq!(
        bar_lines(&m, 12, Some("abcdefghijkl")),
        ("  \u{203a} files\u{2026}_".to_string(), "  model: ab\u{2026}".to_string(), false)
    );
    assert!(bar_lines_would_panic(&AiMode::Idle, 62, None));
}

#[test]
fn message_lines() {
    assert_eq!(
        bar_lines(&AiMode::Thinking, 62, None),
        ("  Thinking\u{2026}".to_string(), String::new(), false)
    );
    assert_eq!(
        bar_lines(&AiMode::SuggestionReady { command: "ls -la".to_string() }, 62, None),
        ("  ls -la".to_string(), "  Enter run \u{b7} Esc dismiss".to_string(), false)
    );
    assert_eq!(
        bar_lines(&AiMode::Error { message: "connection refused".to_string() }, 20, None),
        ("  connectio\u{2026}".to_string(), "  Esc to close".to_string(), false)
    );
    let done = AiMode::ConfigApiWizard { step: ConfigApiStep::Done { message: "Groq configured.".to_string() } };
    assert_eq!(
        bar_lines(&done, 10, None),
        ("  Groq c\u{2026}".to_string(), "  Enter to close".to_string(), false)
    );
    let key = AiMode::ConfigApiWizard {
        step: ConfigApiStep::EnterKey { provider: AiBackend::Gemini, key_buffer: "abc".to_string() },
    };
    assert_eq!(
        bar_lines(&key, 62, None),
        ("  API key for Gemini: abc_".to_string(), "  Enter save \u{b7} Esc cancel".to_string(), false)
    );
    let remove = AiMode::RemoveApiPicker { backends: vec![AiBackend::Groq], selected: 0 };
    assert_eq!(bar_lines(&remove, 62, None).1, "  Enter remove \u{b7} Esc cancel");
}

#[test]
fn picker_entries() {
    let m = AiMode::BackendPicker {
        choices: vec![
            BackendChoice::Backend(AiBackend::Ollama),
            BackendChoice::ConfigureApi,
            BackendChoice::RemoveApi,
        ],
        selected: 2,
    };
    let (labels, selected, footer) = picker_labels(&m).unwrap();
    assert_eq!(labels, vec!["Ollama", "Configure API", "Remove API"]);
    assert_eq!(selected, 2);
    assert_eq!(footer, "  Enter select \u{b7} Esc cancel");
    let m = AiMode::RemoveApiPicker { backends: vec![AiBackend::OpenAi, AiBackend::Groq], selected: 1 };
    let (labels, _, footer) = picker_labels(&m).unwrap();
    assert_eq!(labels, vec!["OpenAI", "Groq"]);
    assert_eq!(footer, "  Enter remove \u{b7} Esc cancel");
    let m = AiMode::ConfigApiWizard { step: ConfigApiStep::ChooseProvider { selected: 1 } };
    assert_eq!(picker_labels(&m).unwrap().0, vec!["OpenAI", "Gemini", "Groq"]);
    let m = AiMode::ModelPicker { backend: AiBackend::Groq, models: vec!["m1".to_string()], selected: 0 };
    assert_eq!(picker_labels(&m).unwrap().0, vec!["m1"]);
    assert!(picker_labels(&AiMode::Thinking).is_none());
}
