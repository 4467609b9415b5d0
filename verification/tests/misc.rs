use chameleon::ai::AiBackend;
use chameleon::keys::{command_input_bytes, key_to_bytes, shortcut, Key, Shortcut};
use chameleon::layout::{
    ai_box_geometry, art_lines, art_width, centered_start, clamp_to_grid, grid_row_of,
    grid_rows_for, model_status_label, picker_window, welcome_art,
};
use chameleon::text::split_words;
use chameleon::theme::{
    cell_bg_color, cell_fg_color, config_base_text, config_is_blank, default_config, editor_command,
    theme_from_section, TermColor, Theme, ThemeSection,
};

#[test]
fn keys_send_expected_bytes() {
    assert_eq!(key_to_bytes(Key::Char('c'), true), vec![0x03]);
    assert_eq!(key_to_bytes(Key::Char('z'), true), vec![0x1a]);
    assert_eq!(key_to_bytes(Key::Char('d'), true), vec![0x04]);
    assert_eq!(key_to_bytes(Key::Char('\\'), true), vec![0x1c]);
    assert_eq!(key_to_bytes(Key::Char('a'), true), vec![0x01]);
    assert_eq!(key_to_bytes(Key::Char('['), true), vec![0x1b]);
    assert_eq!(key_to_bytes(Key::Char('A'), true), vec![0x01]);
    assert_eq!(key_to_bytes(Key::Char('1'), true), vec![b'1']);
    assert_eq!(key_to_bytes(Key::Char('x'), false), vec![b'x']);
    assert_eq!(key_to_bytes(Key::Char('é'), false), vec![0xe9]);
    assert_eq!(key_to_bytes(Key::Char('€'), false), vec![0xac]);
    assert_eq!(key_to_bytes(Key::Enter, false), vec![b'\r']);
    assert_eq!(key_to_bytes(Key::BackTab, false), vec![0x1b, b'[', b'Z']);
    assert_eq!(key_to_bytes(Key::Backspace, true), vec![0x7f]);
    assert_eq!(key_to_bytes(Key::Tab, false), vec![b'\t']);
    assert_eq!(key_to_bytes(Key::Esc, false), vec![0x1b]);
    assert_eq!(key_to_bytes(Key::Up, false), vec![0x1b, b'[', b'A']);
    assert_eq!(key_to_bytes(Key::Down, false), vec![0x1b, b'[', b'B']);
    assert_eq!(key_to_bytes(Key::Right, false), vec![0x1b, b'[', b'C']);
    assert_eq!(key_to_bytes(Key::Left, false), vec![0x1b, b'[', b'D']);
    assert_eq!(key_to_bytes(Key::Home, false), vec![0x1b, b'[', b'H']);
    assert_eq!(key_to_bytes(Key::End, false), vec![0x1b, b'[', b'F']);
    assert_eq!(key_to_bytes(Key::PageUp, false), vec![0x1b, b'[', b'5', b'~']);
    assert_eq!(key_to_bytes(Key::PageDown, false), vec![0x1b, b'[', b'6', b'~']);
    assert_eq!(key_to_bytes(Key::Delete, false), vec![0x1b, b'[', b'3', b'~']);
    assert_eq!(key_to_bytes(Key::Insert, false), vec![0x1b, b'[', b'2', b'~']);
    assert_eq!(key_to_bytes(Key::Other, false), Vec::<u8>::new());
}

#[test]
fn theme_from_config_section() {
    let t = theme_from_section(&None);
    assert_eq!(t.default_foreground, (0xcc, 0xcc, 0xcc));
    assert_eq!(t.default_background, (0x1e, 0x1e, 0x1e));
    assert_eq!(t.font_size, 14);
    let d = Theme::default();
    assert_eq!(d.font_size, 14);
    let t = theme_from_section(&Some(ThemeSection {
        default_foreground: Some("#112233".to_string()),
        default_background: Some("nonsense".to_string()),
        font_size: Some(200),
    }));
    assert_eq!(t.default_foreground, (0x11, 0x22, 0x33));
    assert_eq!(t.default_background, (0x1e, 0x1e, 0x1e));
    assert_eq!(t.font_size, 72);
    let t = theme_from_section(&Some(ThemeSection {
        default_foreground: None,
        default_background: Some("000000".to_string()),
        font_size: Some(2),
    }));
    assert_eq!(t.default_foreground, (0xcc, 0xcc, 0xcc));
    assert_eq!(t.default_background, (0, 0, 0));
    assert_eq!(t.font_size, 6);
    let t = theme_from_section(&Some(ThemeSection {
        default_foreground: Some("#ff0000".to_string()),
        default_background: Some("a\u{20ac}bc".to_string()),
        font_size: Some(300),
    }));
    assert_eq!(t.default_foreground, (255, 0, 0));
    assert_eq!(t.default_background, (0x1e, 0x1e, 0x1e));
    assert_eq!(t.font_size, 72);
    let t = theme_from_section(&Some(ThemeSection {
        default_foreground: None,
        default_background: None,
        font_size: Some(-4),
    }));
    assert_eq!(t.font_size, 6);
}

#[test]
fn config_text() {
    assert!(default_config().starts_with("# Chameleon theme"));
    assert!(default_config().contains("font_size = 14\n"));
    assert!(config_is_blank(" \n\t"));
    assert!(!config_is_blank("[ai]"));
    assert_eq!(config_base_text("  \n"), default_config());
    assert_eq!(config_base_text("[ai]\n"), "[ai]\n");
}

#[test]
fn cell_colors() {
    let t = Theme::default();
    assert_eq!(cell_fg_color(0, &t), TermColor::Black);
    assert_eq!(cell_fg_color(1, &t), TermColor::DarkRed);
    assert_eq!(cell_fg_color(6, &t), TermColor::DarkCyan);
    assert_eq!(cell_fg_color(7, &t), TermColor::Rgb(0xcc, 0xcc, 0xcc));
    assert_eq!(cell_fg_color(9, &t), TermColor::Rgb(0xcc, 0xcc, 0xcc));
    assert_eq!(cell_bg_color(0, &t), TermColor::Rgb(0x1e, 0x1e, 0x1e));
    assert_eq!(cell_bg_color(4, &t), TermColor::DarkBlue);
    assert_eq!(cell_bg_color(7, &t), TermColor::Grey);
    assert_eq!(cell_bg_color(8, &t), TermColor::Rgb(0x1e, 0x1e, 0x1e));
}

#[test]
fn banner_lines() {
    let lines = art_lines();
    let expected: Vec<&str> = welcome_art().trim_start_matches('\n').lines().collect();
    assert_eq!(lines, expected);
    assert_eq!(lines.len(), 6);
    let width = art_width(&lines);
    assert_eq!(width, lines.iter().map(|l| l.len()).max().unwrap());
    assert_eq!(centered_start(1000, width), (1000 - width) / 2);
    assert_eq!(centered_start(100, width), 0);
}

#[test]
fn placement() {
    assert_eq!(grid_rows_for(30, 6), 24);
    assert_eq!(grid_rows_for(4, 6), 1);
    assert_eq!(grid_row_of(10, 6), 4);
    assert_eq!(grid_row_of(3, 6), 0);
    assert_eq!(clamp_to_grid(50, 3, 24, 80), (23, 3));
    assert_eq!(clamp_to_grid(5, 90, 0, 0), (0, 0));
    let g = ai_box_geometry(30, 100);
    assert_eq!((g.width, g.height, g.left, g.top, g.inner_width), (64, 8, 18, 22, 62));
    assert_eq!(
        (g.title_row, g.separator_row, g.first_line_row, g.second_line_row, g.bottom_row),
        (23, 24, 25, 26, 29)
    );
    assert_eq!((g.close_col, g.right_col), (76, 81));
    let g = ai_box_geometry(5, 20);
    assert_eq!((g.width, g.height, g.left, g.top, g.inner_width), (18, 3, 1, 2, 16));
    let g = ai_box_geometry(0, 1);
    assert_eq!((g.width, g.height, g.left, g.top, g.inner_width), (0, 0, 0, 0, 0));
    assert_eq!((g.bottom_row, g.close_col, g.right_col), (0, 0, 0));
}

#[test]
fn picker_windows() {
    assert_eq!(picker_window(0, 5), (0, 3));
    assert_eq!(picker_window(2, 5), (0, 3));
    assert_eq!(picker_window(3, 5), (1, 4));
    assert_eq!(picker_window(4, 5), (2, 5));
    assert_eq!(picker_window(0, 2), (0, 2));
    assert_eq!(picker_window(0, 0), (0, 0));
    assert_eq!(picker_window(9, 3), (0, 3));
}

#[test]
fn status_label() {
    assert_eq!(model_status_label(AiBackend::Groq, "mixtral"), "Groq \u{b7} mixtral");
}

#[test]
fn typed_commands_and_shortcuts() {
    assert_eq!(command_input_bytes("ls -l"), vec![b'l', b's', b' ', b'-', b'l', b'\r']);
    assert_eq!(command_input_bytes(""), vec![b'\r']);
    assert_eq!(command_input_bytes("\u{e9}"), vec![0xe9, b'\r']);
    assert_eq!(shortcut(Key::Char('C'), true, true), Shortcut::CopySelection);
    assert_eq!(shortcut(Key::Char('c'), true, false), Shortcut::NoShortcut);
    assert_eq!(shortcut(Key::Char('t'), true, true), Shortcut::EditConfig);
    assert_eq!(shortcut(Key::Char('k'), true, false), Shortcut::OpenAiBar);
    assert_eq!(shortcut(Key::Char('K'), true, true), Shortcut::OpenAiBar);
    assert_eq!(shortcut(Key::Char('k'), false, false), Shortcut::NoShortcut);
    assert_eq!(shortcut(Key::Enter, true, true), Shortcut::NoShortcut);
}

#[test]
fn editor_commands() {
    assert_eq!(editor_command("vim"), ("vim".to_string(), Vec::<String>::new()));
    assert_eq!(
        editor_command("  code --wait\t-n "),
        ("code".to_string(), vec!["--wait".to_string(), "-n".to_string()])
    );
    assert_eq!(editor_command(" \n "), ("nano".to_string(), Vec::<String>::new()));
    assert_eq!(split_words("a  b\u{3000}c"), vec!["a", "b", "c"]);
}
