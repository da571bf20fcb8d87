use protonhax::command::{classify, classify_tokens, split_command, split_at_first_eq, ClassifyError};

fn strings(v: &[&str]) -> Vec<String> {
    v.iter().map(|s| s.to_string()).collect()
}

#[test]
fn classifies_split_tokens() {
    let tokens = strings(&["FOO=1", "/opt/proton", "waitforexitandrun", "game.exe"]);
    let c = match classify_tokens(&tokens) {
        Ok(c) => c,
        Err(_) => panic!("classification failed"),
    };
    assert_eq!(c.assignments, vec![("FOO".to_string(), "1".to_string())]);
    assert_eq!(c.argv, strings(&["/opt/proton", "waitforexitandrun", "game.exe"]));
    assert_eq!(c.executable, "/opt/proton");
}

#[test]
fn resplits_single_token() {
    let c = match classify(strings(&["FOO=1 /opt/proton run game.exe"])) {
        Ok(c) => c,
        Err(_) => panic!("classification failed"),
    };
    assert_eq!(c.assignments, vec![("FOO".to_string(), "1".to_string())]);
    assert_eq!(c.argv, strings(&["/opt/proton", "run", "game.exe"]));
    assert_eq!(c.executable, "/opt/proton");
}

#[test]
fn resplit_honours_quotes() {
    let split = match split_command(strings(&["A='x y' '/a b/proton' run"])) {
        Ok(t) => t,
        Err(_) => panic!("split failed"),
    };
    assert_eq!(split, strings(&["A=x y", "/a b/proton", "run"]));
}

#[test]
fn unbalanced_quote_is_malformed() {
    assert!(matches!(classify(strings(&["FOO=1 \"/opt/proton run"])), Err(ClassifyError::Malformed(_))));
}

#[test]
fn only_assignments_is_no_command() {
    assert!(matches!(classify(strings(&["FOO=1", "BAR=2"])), Err(ClassifyError::NoCommand)));
    assert!(matches!(classify(Vec::new()), Err(ClassifyError::NoCommand)));
}

#[test]
fn missing_proton_is_no_executable() {
    assert!(matches!(classify(strings(&["FOO=1", "/bin/game", "run"])), Err(ClassifyError::NoExecutable)));
}

#[test]
fn several_tokens_are_not_resplit() {
    let c = match classify(strings(&["/opt/proton run", "game.exe"])) {
        Ok(c) => c,
        Err(_) => panic!("classification failed"),
    };
    assert!(c.assignments.is_empty());
    assert_eq!(c.argv, strings(&["/opt/proton run", "game.exe"]));
    assert_eq!(c.executable, "/opt/proton run");
}

#[test]
fn executable_is_first_proton_argument() {
    let tokens = strings(&["A=1", "B=2", "reaper", "/x/proton1", "/y/proton2"]);
    let c = match classify_tokens(&tokens) {
        Ok(c) => c,
        Err(_) => panic!("classification failed"),
    };
    assert_eq!(c.assignments.len(), 2);
    assert_eq!(c.argv, strings(&["reaper", "/x/proton1", "/y/proton2"]));
    assert_eq!(c.executable, "/x/proton1");
}

#[test]
fn splits_at_first_equals() {
    assert_eq!(split_at_first_eq("A=b=c"), Some(("A".to_string(), "b=c".to_string())));
    assert_eq!(split_at_first_eq("A="), Some(("A".to_string(), String::new())));
    assert_eq!(split_at_first_eq("none"), None);
}

#[test]
fn resplit_matches_presplit() {
    let single = classify(strings(&["FOO=1 /opt/proton waitforexitandrun game.exe"]));
    let split = classify_tokens(&strings(&["FOO=1", "/opt/proton", "waitforexitandrun", "game.exe"]));
    match (single, split) {
        (Ok(a), Ok(b)) => {
            assert_eq!(a.assignments, b.assignments);
            assert_eq!(a.argv, b.argv);
            assert_eq!(a.executable, b.executable);
        },
        _ => panic!("classification failed"),
    }
}
