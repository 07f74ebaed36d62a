use chev_shell::prompt::{shorten_path, PromptParts};
use chev_shell::text::{join_strings, parse_usize, split_char, split_ws, u64_to_string};

#[test]
fn test_shorten_path() {
    let home = "/Users/antonvice";
    let path = "/Users/antonvice/Documents/programming/chev-shell/chev-shell";
    assert_eq!(shorten_path(path, home), "~/D/p/c/chev-shell");
}

#[test]
fn test_shorten_path_outside_home() {
    assert_eq!(shorten_path("/usr/local/bin", "/home/me"), "/u/l/bin");
    assert_eq!(shorten_path("/", "/home/me"), "/");
    assert_eq!(shorten_path("/home/me", "/home/me"), "~");
}

#[test]
fn test_to_plain_string() {
    let parts = PromptParts {
        user: "u".to_string(),
        hostname: "h".to_string(),
        path: "~/p".to_string(),
        git: String::new(),
    };
    assert_eq!(parts.to_plain_string(), "🐚 u@h ~/p > ");

    let with_git = PromptParts { git: "main".to_string(), ..parts };
    assert_eq!(with_git.to_plain_string(), "🐚 u@h ~/p (main) > ");
}

#[test]
fn test_to_colored_string() {
    let parts = PromptParts {
        user: "u".to_string(),
        hostname: "h".to_string(),
        path: "~".to_string(),
        git: String::new(),
    };
    let teal = "\x01\x1b[38;2;110;209;195m\x02";
    let gray = "\x01\x1b[90m\x02";
    let reset = "\x01\x1b[0m\x02";
    let bold_teal = "\x01\x1b[1;38;2;110;209;195m\x02";
    let expected = format!(
        "🐚 {teal}u@{gray}h{reset} {bold_teal}~{reset}{teal}> {reset}"
    );
    assert_eq!(parts.to_colored_string(false), expected);

    let semantic = parts.to_colored_string(true);
    assert!(semantic.starts_with("\x01\x1b]133;A\x07\x02"));
    assert!(semantic.ends_with("\x01\x1b]133;B\x07\x02"));
}

#[test]
fn test_parse_usize() {
    assert_eq!(parse_usize("0"), Some(0));
    assert_eq!(parse_usize("42"), Some(42));
    assert_eq!(parse_usize("+7"), Some(7));
    assert_eq!(parse_usize(""), None);
    assert_eq!(parse_usize("+"), None);
    assert_eq!(parse_usize("4a"), None);
    assert_eq!(parse_usize("-3"), None);
    assert_eq!(parse_usize("99999999999999999999999999"), None);
}

#[test]
fn test_u64_to_string() {
    assert_eq!(u64_to_string(0), "0");
    assert_eq!(u64_to_string(907), "907");
    assert_eq!(u64_to_string(18446744073709551615), "18446744073709551615");
}

#[test]
fn test_split_and_join() {
    let parts = split_char("a::b", ':');
    assert_eq!(parts, vec!["a".to_string(), String::new(), "b".to_string()]);
    assert_eq!(join_strings(&parts, ":"), "a::b");

    assert_eq!(split_char("", ':'), vec![String::new()]);

    let words = split_ws("  one  two\tthree ");
    assert_eq!(words, vec!["one".to_string(), "two".to_string(), "three".to_string()]);
    assert_eq!(split_ws("   "), Vec::<String>::new());
}
