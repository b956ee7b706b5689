use scb_vka::shell::{
    cat_check, check_confirmation, check_password, classify_command, parse_object_id,
    parse_shell_command, sanitize_terminal_output, tokenize_shell_input, CatCheck, CommandWord,
    ShellCommand, MAX_CAT_SIZE,
};
use scb_vka::vault::ObjectMeta;

#[test]
fn test_terminal_sanitization() {
    // Safe characters
    assert_eq!(sanitize_terminal_output("Hello World!"), "Hello World!");
    assert_eq!(
        sanitize_terminal_output("Line 1\nLine 2\tTabbed"),
        "Line 1\nLine 2\tTabbed"
    );

    // ANSI escape dropping (\x1b)
    let malicious = "Normal \x1b[31mRed Text\x1b[0m Normal";
    assert_eq!(
        sanitize_terminal_output(malicious),
        "Normal [31mRed Text[0m Normal"
    );

    // Terminal ringing and backspace
    let annoying = "Ring\x07 Backspace\x08";
    assert_eq!(sanitize_terminal_output(annoying), "Ring Backspace");

    // Extended unicode (Emoji)
    let unicode = "Turkish: ĞÜŞiöç Emoji: 🦀🔒";
    assert_eq!(
        sanitize_terminal_output(unicode),
        "Turkish: ĞÜŞiöç Emoji: 🦀🔒"
    );
}

#[test]
fn sanitization_drops_c1_controls_and_delete() {
    assert_eq!(sanitize_terminal_output("a\u{7f}b\u{85}c\u{9b}d\u{a0}e"), "abcd\u{a0}e");
    assert_eq!(sanitize_terminal_output("\r\n"), "\r\n");
}

#[test]
fn tokenizer_splits_and_groups_quotes() {
    assert_eq!(tokenize_shell_input("ls"), vec!["ls"]);
    assert_eq!(tokenize_shell_input("  add  text  \"my purpose\" hello world "), vec!["add", "text", "my purpose", "hello", "world"]);
    assert_eq!(tokenize_shell_input("a\"b c\"d"), vec!["ab cd"]);
    assert_eq!(tokenize_shell_input("\"unterminated quote"), vec!["unterminated quote"]);
    assert!(tokenize_shell_input("   \t ").is_empty());
    assert!(tokenize_shell_input("\"\"").is_empty());
}

#[test]
fn object_id_parsing() {
    let id = parse_object_id("0x00112233445566778899aabbccddeeff").unwrap();
    assert_eq!(id, [0x00, 0x11, 0x22, 0x33, 0x44, 0x55, 0x66, 0x77, 0x88, 0x99, 0xaa, 0xbb, 0xcc, 0xdd, 0xee, 0xff]);
    assert_eq!(parse_object_id(" 00112233445566778899AABBCCDDEEFF ").unwrap(), id);
    assert_eq!(parse_object_id("0011").unwrap_err(), "ID must be 32 hex characters");
    assert_eq!(parse_object_id("zz112233445566778899aabbccddeeff").unwrap_err(), "ID must be 32 hex characters");
}

#[test]
fn password_checks() {
    assert_eq!(check_password("").unwrap_err(), "Password cannot be empty");
    assert_eq!(check_password("short").unwrap_err(), "Password must be at least 8 characters");
    assert!(check_password("long enough").is_ok());
    assert!(check_confirmation("StrongPassword123", "StrongPassword123").is_ok());
    assert_eq!(check_confirmation("StrongPassword123", "StrongPassword124").unwrap_err(), "Passwords do not match");
}

fn words(line: &str) -> Vec<String> {
    tokenize_shell_input(line)
}

#[test]
fn shell_commands_are_recognised_in_any_case() {
    assert!(matches!(classify_command("LS"), CommandWord::List));
    assert!(matches!(classify_command("Read"), CommandWord::Cat));
    assert!(matches!(classify_command("DEL"), CommandWord::Remove));
    assert!(matches!(classify_command("?"), CommandWord::Help));
    assert!(matches!(classify_command("Compact"), CommandWord::Vacuum));
    assert!(matches!(classify_command("cls"), CommandWord::Clear));
    assert!(matches!(classify_command("Q"), CommandWord::Exit));
    assert!(matches!(classify_command("lsx"), CommandWord::Unknown));
}

#[test]
fn shell_lines_become_commands() {
    assert!(matches!(parse_shell_command(&words("   ")), ShellCommand::Empty));
    assert!(matches!(parse_shell_command(&words("list")), ShellCommand::List));
    assert!(matches!(parse_shell_command(&words("cat")), ShellCommand::CatUsage));
    assert!(matches!(parse_shell_command(&words("cat nothex")), ShellCommand::Cat(None)));
    let id = "00112233445566778899aabbccddeeff";
    match parse_shell_command(&words(&format!("rm {id}"))) {
        ShellCommand::Remove(Some(v)) => assert_eq!(hex::encode(v), id),
        _ => panic!("expected a removal"),
    }
    assert!(matches!(parse_shell_command(&words("rm")), ShellCommand::RemoveUsage));
    assert!(matches!(parse_shell_command(&words("add text note")), ShellCommand::AddUsage));
    assert!(matches!(parse_shell_command(&words("add -f a b")), ShellCommand::AddFileUsage));
    match parse_shell_command(&words("ADD text \"my note\" hello   big \"wide world\"")) {
        ShellCommand::AddInline { object_type, purpose, data } => {
            assert_eq!(object_type, "text");
            assert_eq!(purpose, "my note");
            assert_eq!(data, "hello big wide world");
        }
        _ => panic!("expected an inline add"),
    }
    match parse_shell_command(&words("add -f /tmp/x.bin blob backup")) {
        ShellCommand::AddFile { path, object_type, purpose } => {
            assert_eq!(path, "/tmp/x.bin");
            assert_eq!(object_type, "blob");
            assert_eq!(purpose, "backup");
        }
        _ => panic!("expected a file add"),
    }
    match parse_shell_command(&words("frobnicate now")) {
        ShellCommand::Unknown(w) => assert_eq!(w, "frobnicate"),
        _ => panic!("expected an unknown command"),
    }
}

#[test]
fn cat_refuses_large_and_missing_objects() {
    let meta = |b: u8, size: u64| ObjectMeta {
        object_id: [b; 16],
        object_type: "text".to_string(),
        purpose: "p".to_string(),
        size,
    };
    let objects = vec![meta(1, 10), meta(2, MAX_CAT_SIZE + 1), meta(2, 5), meta(3, MAX_CAT_SIZE)];
    assert!(matches!(cat_check(&objects, &[1; 16]), CatCheck::Show(10)));
    assert!(matches!(cat_check(&objects, &[2; 16]), CatCheck::TooLarge(s) if s == MAX_CAT_SIZE + 1));
    assert!(matches!(cat_check(&objects, &[3; 16]), CatCheck::Show(s) if s == MAX_CAT_SIZE));
    assert!(matches!(cat_check(&objects, &[4; 16]), CatCheck::NotFound));
}
