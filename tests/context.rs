use protonhax::context::{apply_env_content, cmd_exe_path, context_record, pfx_path, prepare_context, sort_by_appid};
use protonhax::env_store::load_environment;
use protonhax::resolve::{RunningApp, TargetApp};

fn app(appid: &str) -> RunningApp {
    RunningApp { appid: appid.to_string(), path: String::new(), name: None, install_path: None, started_at: None }
}

#[test]
fn prefix_and_console_paths() {
    assert_eq!(pfx_path("/lib/compatdata/42"), "/lib/compatdata/42/pfx");
    assert_eq!(cmd_exe_path("/p"), "/p/drive_c/windows/system32/cmd.exe");
}

#[test]
fn context_environment_replay() {
    let target = TargetApp { appid: "42".to_string(), app_dir: "/run/protonhax/42".to_string() };
    let env = prepare_context(&target, "declare -x A=\"x y\"\ndeclare -x SteamAppId=7\n");
    assert_eq!(
        env,
        vec![
            ("SteamAppId".to_string(), "42".to_string()),
            ("A".to_string(), "x y".to_string()),
            ("SteamAppId".to_string(), "7".to_string())
        ]
    );
    let mut more = vec![("K".to_string(), "V".to_string())];
    apply_env_content(&mut more, "junk\ndeclare -x B=2\n");
    assert_eq!(more, vec![("K".to_string(), "V".to_string()), ("B".to_string(), "2".to_string())]);
}

#[test]
fn contexts_sorted_by_appid() {
    let sorted = sort_by_appid(vec![app("30"), app("100"), app("2"), app("1217060")]);
    let ids: Vec<&str> = sorted.iter().map(|a| a.appid.as_str()).collect();
    assert_eq!(ids, vec!["100", "1217060", "2", "30"]);
    assert!(sort_by_appid(Vec::new()).is_empty());
}

#[test]
fn create_record_then_load() {
    let vars = vec![
        ("PATH".to_string(), "/usr/bin:/bin".to_string()),
        ("WINEDLLOVERRIDES".to_string(), "dxgi=n,b; d3d11=n".to_string()),
        ("PROMPT".to_string(), "$USER \\ \"x\"".to_string()),
    ];
    let record = context_record(1_700_000_123, "/opt/proton", "/lib/compatdata/42", &vars);
    assert_eq!(record.started_at, "1700000123");
    assert_eq!(record.exe, "/opt/proton");
    assert_eq!(record.pfx, "/lib/compatdata/42/pfx");
    assert_eq!(load_environment(&record.env), vars);
}
