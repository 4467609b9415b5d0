use chameleon::helpers::{
    command_part_of_line, completion_suffix_from_reply, destructive_command_hint,
    destructive_hint_of_lowercase, expand_abbrev, history_suggestion, merged_abbrev_map,
    parse_hex, split_first_word, strip_code_blocks, AbbrevMap,
};
use chameleon::text::is_whitespace;

#[test]
fn parse_hex_accepts_hash() {
    assert_eq!(parse_hex("#ff00aa"), Some((255, 0, 170)));
    assert_eq!(parse_hex("00ff00"), Some((0, 255, 0)));
    assert_eq!(parse_hex("bad"), None);
}

#[test]
fn command_part_strips_common_prompts() {
    assert_eq!(command_part_of_line("user@host:~/p $ ls -la"), "ls -la");
    assert_eq!(command_part_of_line("git status"), "git status");
}

#[test]
fn completion_suffix_strips_prefix() {
    let s = completion_suffix_from_reply("x", "git ", "git log --oneline");
    assert_eq!(s, "log --oneline");
}

#[test]
fn destructive_hint_rm_rf() {
    assert!(destructive_command_hint("sudo rm -rf /tmp/x").is_some());
    assert!(destructive_command_hint("echo ok").is_none());
}

#[test]
fn merged_abbrev_user_overrides_builtin() {
    let mut u = AbbrevMap::new();
    u.insert("gco".to_string(), "git checkout -b ".to_string());
    let m = merged_abbrev_map(&u);
    assert_eq!(m.get("gco").map(|s| s.as_str()), Some("git checkout -b "));
    assert!(m.contains_key("gst"));
}

#[test]
fn history_suggestion_first_match_wins() {
    let h: Vec<String> = vec!["git diff".into(), "git status --short".into()];
    assert_eq!(history_suggestion(&h, "git "), Some("diff".into()));
    assert_eq!(
        history_suggestion(&h, "git s"),
        Some("tatus --short".into())
    );
}

#[test]
fn parse_hex_edge_cases() {
    assert_eq!(parse_hex("ABCDEF"), Some((0xab, 0xcd, 0xef)));
    assert_eq!(parse_hex("#a0B1c2"), Some((0xa0, 0xb1, 0xc2)));
    assert_eq!(parse_hex("##123456"), None);
    assert_eq!(parse_hex("+f+f+f"), None);
    assert_eq!(parse_hex("12345"), None);
    assert_eq!(parse_hex("1234567"), None);
    assert_eq!(parse_hex("#12345"), None);
    assert_eq!(parse_hex("gg0000"), None);
    assert_eq!(parse_hex("-10000"), None);
    assert_eq!(parse_hex("\u{e9}12345"), None);
    assert_eq!(parse_hex("a\u{20ac}bc"), None);
    assert_eq!(parse_hex("ff1\u{e9}1"), None);
    assert_eq!(parse_hex("#"), None);
    assert_eq!(parse_hex(""), None);
}

#[test]
fn parse_hex_round_trip() {
    for (r, g, b) in [(0u8, 0u8, 0u8), (255, 0, 170), (18, 52, 86), (171, 205, 239), (9, 10, 255)] {
        assert_eq!(parse_hex(&format!("#{:02x}{:02x}{:02x}", r, g, b)), Some((r, g, b)));
        assert_eq!(parse_hex(&format!("{:02X}{:02X}{:02X}", r, g, b)), Some((r, g, b)));
    }
}

#[test]
fn strip_code_blocks_cases() {
    assert_eq!(strip_code_blocks("  ```bash\nls -la\n```  "), "ls -la");
    assert_eq!(strip_code_blocks("```sh\n echo hi \n```"), "echo hi");
    assert_eq!(strip_code_blocks("```"), "```");
    assert_eq!(strip_code_blocks("``````"), "");
    assert_eq!(strip_code_blocks("```bash bash ls```"), "bash ls");
    assert_eq!(strip_code_blocks("bash ls"), "bash ls");
    assert_eq!(strip_code_blocks("shutdown now"), "shutdown now");
    assert_eq!(strip_code_blocks("  plain  "), "plain");
    assert_eq!(strip_code_blocks(""), "");
}

#[test]
fn destructive_hint_labels() {
    assert_eq!(destructive_command_hint("  rm -fr / "), Some("recursive delete (rm -rf)"));
    assert_eq!(destructive_command_hint("MKFS.ext4 /dev/sda1"), Some("disk/filesystem format"));
    assert_eq!(
        destructive_command_hint("dd if=img of=/dev/sdb"),
        Some("raw block device write (dd)")
    );
    assert_eq!(destructive_command_hint("cat x > /dev/sda"), Some("block device overwrite"));
    assert_eq!(destructive_command_hint("cat x >/dev/sda"), Some("block device overwrite"));
    assert_eq!(destructive_command_hint(":(){:|:&};:"), Some("fork bomb"));
    assert_eq!(destructive_command_hint("dd if=a of=b"), None);
    assert_eq!(destructive_hint_of_lowercase("mkfs"), Some("disk/filesystem format"));
    assert_eq!(destructive_hint_of_lowercase("MKFS"), None);
}

#[test]
fn command_part_other_prompts() {
    assert_eq!(command_part_of_line("root@box # apt update"), "apt update");
    assert_eq!(command_part_of_line("root@box:/# apt update"), "root@box:/# apt update");
    assert_eq!(command_part_of_line("PS C:\\> dir"), "dir");
    assert_eq!(command_part_of_line("(venv) [a] b $ make  "), "make");
    assert_eq!(command_part_of_line("a $ b $ c"), "c");
    assert_eq!(command_part_of_line("   "), "");
    assert_eq!(command_part_of_line("[user@host ~]$ ls"), "[user@host ~]$ ls");
}

#[test]
fn completion_suffix_cases() {
    assert_eq!(
        completion_suffix_from_reply("git st", "git st", "```bash\ngit status\n```"),
        "atus"
    );
    assert_eq!(completion_suffix_from_reply("$ git", "ls", "  "), "");
    assert_eq!(completion_suffix_from_reply("  $ gi  ", "zz", "$ gi t"), "t");
    assert_eq!(completion_suffix_from_reply("x", "y", "echo hi"), "echo hi");
    assert_eq!(completion_suffix_from_reply("x", "", "  echo hi"), "echo hi");
}

#[test]
fn split_first_word_cases() {
    assert_eq!(
        split_first_word("  git status --short"),
        ("git ".to_string(), "status --short".to_string())
    );
    assert_eq!(split_first_word("ls"), ("ls".to_string(), "".to_string()));
    assert_eq!(split_first_word("ls   "), ("ls ".to_string(), "".to_string()));
    assert_eq!(split_first_word(""), ("".to_string(), "".to_string()));
    assert_eq!(split_first_word("éa b"), ("éa".to_string(), "b".to_string()));
}

#[test]
fn expand_abbrev_trims_word() {
    let m = merged_abbrev_map(&AbbrevMap::new());
    assert_eq!(expand_abbrev(" gco ", &m), Some("git checkout ".to_string()));
    assert_eq!(expand_abbrev("ll", &m), Some("ls -la ".to_string()));
    assert_eq!(expand_abbrev("nope", &m), None);
    let mut u = AbbrevMap::new();
    u.insert("k".to_string(), "kubectl ".to_string());
    u.insert("k".to_string(), "kubectl get ".to_string());
    let m = merged_abbrev_map(&u);
    assert_eq!(expand_abbrev("k", &m), Some("kubectl get ".to_string()));
    assert_eq!(expand_abbrev("gst", &m), Some("git status ".to_string()));
}

#[test]
fn history_suggestion_cases() {
    let h: Vec<String> = vec!["  git diff  ".into(), "git".into(), "ls -la".into()];
    assert_eq!(history_suggestion(&h, ""), None);
    assert_eq!(history_suggestion(&h, "git"), Some(" diff".into()));
    assert_eq!(history_suggestion(&h, "ls -la"), None);
    assert_eq!(history_suggestion(&h, "cd"), None);
    assert_eq!(history_suggestion(&[], "x"), None);
}

#[test]
fn whitespace_matches_std() {
    for u in 0u32..=0x10FFFF {
        if let Some(c) = char::from_u32(u) {
            assert_eq!(is_whitespace(c), c.is_whitespace(), "char {:x}", u);
        }
    }
}

#[test]
fn abbrev_map_len_counts_names() {
    let mut m = AbbrevMap::new();
    assert_eq!(m.len(), 0);
    m.insert("gco".to_string(), "git checkout ".to_string());
    m.insert("x".to_string(), "y".to_string());
    m.insert("gco".to_string(), "git checkout -b ".to_string());
    assert_eq!(m.len(), 2);
    let merged = merged_abbrev_map(&m);
    assert_eq!(merged.len(), 17);
}
