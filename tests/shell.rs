use protonhax::shell::{is_env_assignment, shell_escape, un_shell_escape};

#[test]
fn env_assignment_detection() {
    assert!(is_env_assignment("A=1"));
    assert!(is_env_assignment("_A1=1"));
    assert!(!is_env_assignment("1A=1"));
    assert!(!is_env_assignment("A-B=1"));
}

#[test]
fn escape_roundtrip() {
    let original = r#" a b$c\"` "#;
    let escaped = shell_escape(original);
    assert_eq!(un_shell_escape(&escaped), original);
}

#[test]
fn assignment_classifier_examples() {
    assert!(is_env_assignment("FOO=1"));
    assert!(!is_env_assignment("1FOO=1"));
    assert!(!is_env_assignment("FOO-BAR=1"));
    assert!(!is_env_assignment("FOO"));
    assert!(!is_env_assignment("=1"));
    assert!(is_env_assignment("FOO="));
    assert!(is_env_assignment("FOO=a=b"));
}

#[test]
fn escape_leaves_plain_values() {
    assert_eq!(shell_escape("plain"), "plain");
    assert_eq!(shell_escape(""), "");
    assert_eq!(shell_escape("a`b"), "a`b");
}

#[test]
fn escape_quotes_special_values() {
    assert_eq!(shell_escape("a b"), "\"a b\"");
    assert_eq!(shell_escape("$HOME"), "\"\\$HOME\"");
    assert_eq!(shell_escape("say \"hi\""), "\"say \\\"hi\\\"\"");
    assert_eq!(shell_escape("c:\\x"), "\"c:\\\\x\"");
    assert_eq!(shell_escape("it's `x`"), "\"it's \\`x\\`\"");
}

#[test]
fn unescape_examples() {
    assert_eq!(un_shell_escape("plain"), "plain");
    assert_eq!(un_shell_escape("\"a b\""), "a b");
    assert_eq!(un_shell_escape("\"\\$x \\q\""), "$x \\q");
    assert_eq!(un_shell_escape("\"ab\\\""), "ab\\");
    assert_eq!(un_shell_escape("\""), "\"");
    assert_eq!(un_shell_escape("\"\""), "");
    assert_eq!(un_shell_escape("\"open"), "\"open");
}

#[test]
fn escape_round_trip_many_values() {
    let values = [
        "", " ", "\t\n", "\"", "\\", "$", "`", "'", "a\"b", "\\\"", "$(rm -rf)", "x y z",
        "trailing\\", "\"quoted\"", "mixed '\"$`\\ all", "ünïcode\u{3000}space",
    ];
    for v in values.iter() {
        assert_eq!(un_shell_escape(&shell_escape(v)), *v);
    }
}
