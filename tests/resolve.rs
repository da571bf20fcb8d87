use protonhax::resolve::{
    contains_case_insensitive, contains_folded, eq_ignore_ascii_case, resolve_app_by_name,
    resolve_latest_app, resolve_target_app, ResolveError, RunningApp,
};

fn app(appid: &str, name: Option<&str>, started_at: Option<u64>) -> RunningApp {
    RunningApp {
        appid: appid.to_string(),
        path: format!("/run/protonhax/{appid}"),
        name: name.map(|n| n.to_string()),
        install_path: None,
        started_at,
    }
}

#[test]
fn case_insensitive_search() {
    assert!(contains_case_insensitive("Gunfire Reborn", "gunfire"));
    assert!(contains_case_insensitive("GUNFIRE REBORN", "reborn"));
    assert!(!contains_case_insensitive("Gunfire Reborn", "helldivers"));
}

#[test]
fn folded_search() {
    assert!(contains_folded("gunfire reborn", "fire"));
    assert!(!contains_folded("gunfire reborn", "Fire"));
    assert!(contains_folded("abc", ""));
}

#[test]
fn latest_picks_largest_start() {
    let apps = vec![app("100", None, Some(10)), app("200", None, Some(20))];
    let t = match resolve_latest_app(&apps) {
        Ok(t) => t,
        Err(_) => panic!("no target"),
    };
    assert_eq!(t.appid, "200");
    assert_eq!(t.app_dir, "/run/protonhax/200");
}

#[test]
fn latest_tie_takes_first_listed() {
    let apps = vec![app("100", None, Some(20)), app("200", None, None), app("300", None, Some(20))];
    match resolve_latest_app(&apps) {
        Ok(t) => assert_eq!(t.appid, "100"),
        Err(_) => panic!("no target"),
    }
}

#[test]
fn latest_single_without_start() {
    let apps = vec![app("100", None, None)];
    match resolve_latest_app(&apps) {
        Ok(t) => assert_eq!(t.appid, "100"),
        Err(_) => panic!("no target"),
    }
}

#[test]
fn latest_two_without_start_is_ambiguous() {
    let apps = vec![app("100", None, None), app("200", None, None)];
    match resolve_latest_app(&apps) {
        Err(ResolveError::Ambiguous(c)) => {
            assert_eq!(c, vec![("100".to_string(), None), ("200".to_string(), None)]);
        },
        _ => panic!("expected ambiguity"),
    }
}

#[test]
fn latest_with_nothing_running() {
    assert!(matches!(resolve_latest_app(&Vec::new()), Err(ResolveError::NoneRunning)));
}

#[test]
fn name_fragment_single_match() {
    let apps = vec![app("1217060", Some("Gunfire Reborn"), Some(5))];
    match resolve_app_by_name(&apps, "gunfire") {
        Ok(t) => assert_eq!(t.appid, "1217060"),
        Err(_) => panic!("no target"),
    }
}

#[test]
fn name_fragment_two_matches_is_ambiguous() {
    let apps = vec![app("1", Some("Gunfire A"), None), app("2", Some("Gunfire B"), None), app("3", None, None)];
    match resolve_app_by_name(&apps, "gunfire") {
        Err(ResolveError::Ambiguous(c)) => {
            assert_eq!(
                c,
                vec![
                    ("1".to_string(), Some("Gunfire A".to_string())),
                    ("2".to_string(), Some("Gunfire B".to_string()))
                ]
            );
        },
        _ => panic!("expected ambiguity"),
    }
}

#[test]
fn name_fragment_without_match() {
    let apps = vec![app("1", Some("Gunfire A"), None), app("2", None, None)];
    assert!(matches!(resolve_app_by_name(&apps, "helldivers"), Err(ResolveError::NotFound)));
}

#[test]
fn selector_forms() {
    let apps = vec![app("1", Some("Alpha"), Some(1)), app("2", Some("Beta"), Some(2))];
    match resolve_target_app("/run/protonhax", "LaTeSt", false, &apps) {
        Ok(t) => assert_eq!(t.appid, "2"),
        Err(_) => panic!("no target"),
    }
    match resolve_target_app("/run/protonhax", "1", true, &apps) {
        Ok(t) => {
            assert_eq!(t.appid, "1");
            assert_eq!(t.app_dir, "/run/protonhax/1");
        },
        Err(_) => panic!("no target"),
    }
    match resolve_target_app("/run/protonhax", "alp", false, &apps) {
        Ok(t) => assert_eq!(t.appid, "1"),
        Err(_) => panic!("no target"),
    }
}

#[test]
fn ascii_case_equality() {
    assert!(eq_ignore_ascii_case("LATEST", "latest"));
    assert!(!eq_ignore_ascii_case("latest1", "latest"));
    assert!(!eq_ignore_ascii_case("lätest", "latest"));
}
