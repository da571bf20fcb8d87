use protonhax::env_store::{env_file_content, get_env_var, load_environment, parse_export_line, split_lines};

fn pairs(v: &[(&str, &str)]) -> Vec<(String, String)> {
    v.iter().map(|(a, b)| (a.to_string(), b.to_string())).collect()
}

#[test]
fn create_then_load_reproduces_environment() {
    let vars = pairs(&[
        ("HOME", "/home/u"),
        ("PS1", "\\u@\\h $ "),
        ("QUOTED", "say \"hi\""),
        ("EMPTY", ""),
        ("TICK", "`x`"),
        ("SPACE", " lead and trail "),
    ]);
    let content = env_file_content(&vars);
    assert_eq!(load_environment(&content), vars);
}

#[test]
fn env_file_has_declare_lines() {
    let content = env_file_content(&pairs(&[("A", "1"), ("B", "x y")]));
    assert_eq!(content, "declare -x A=1\ndeclare -x B=\"x y\"\n");
}

#[test]
fn load_skips_other_lines() {
    let content = "# comment\n  declare -x A=1  \r\nexport B=2\ndeclare -x NOEQ\ndeclare -x C=\"a b\"";
    assert_eq!(load_environment(content), pairs(&[("A", "1"), ("C", "a b")]));
}

#[test]
fn lookup_finds_first_match() {
    let content = "declare -x A=1\ndeclare -x B=\"two words\"\ndeclare -x A=3\n";
    assert_eq!(get_env_var(content, "A"), Some("1".to_string()));
    assert_eq!(get_env_var(content, "B"), Some("two words".to_string()));
    assert_eq!(get_env_var(content, "C"), None);
}

#[test]
fn export_line_parts() {
    assert_eq!(
        parse_export_line("  declare -x  NAME = \"v\" "),
        Some(("NAME".to_string(), "\"v\"".to_string()))
    );
    assert_eq!(parse_export_line("declare -x"), None);
}

#[test]
fn lines_like_std() {
    assert_eq!(split_lines("a\r\nb\n\nc\r"), vec!["a", "b", "", "c\r"]);
    assert_eq!(split_lines(""), Vec::<String>::new());
    assert_eq!(split_lines("x\n"), vec!["x"]);
}
