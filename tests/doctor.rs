use protonhax::doctor::{doctor_report, inspect_context, ContextCheck, DoctorReport, EnvCheck, PathCheck};
use protonhax::resolve::RunningApp;

fn pc(path: &str, exists: bool) -> PathCheck {
    PathCheck { path: path.to_string(), exists }
}

fn app(started_at: Option<u64>) -> RunningApp {
    RunningApp {
        appid: "42".to_string(),
        path: "/run/protonhax/42".to_string(),
        name: Some("Game".to_string()),
        install_path: None,
        started_at,
    }
}

#[test]
fn empty_root_has_no_errors_and_warns() {
    let r = doctor_report(None, None, "/run/protonhax", false, &Vec::new());
    assert_eq!(r.errors, 0);
    assert_eq!(r.warnings, 2);
    let r = doctor_report(None, None, "/run/protonhax", true, &Vec::new());
    assert_eq!(r.errors, 0);
    assert_eq!(r.warnings, 1);
}

#[test]
fn healthy_context_is_clean() {
    let c = ContextCheck {
        app: app(Some(1)),
        exe: Some(pc("/opt/proton", true)),
        pfx: Some(pc("/pfx", true)),
        env: EnvCheck::CompatData(pc("/compat", true)),
    };
    let r = doctor_report(Some("42".to_string()), Some(pc("/compat", true)), "/run/protonhax", true, &vec![c]);
    assert_eq!(r.errors, 0);
    assert_eq!(r.warnings, 0);
}

#[test]
fn broken_context_counts() {
    let c = ContextCheck { app: app(None), exe: Some(pc("/gone", false)), pfx: None, env: EnvCheck::Unreadable };
    let mut report = DoctorReport { lines: Vec::new(), warnings: 0, errors: 0 };
    inspect_context(&c, &mut report);
    assert_eq!(report.errors, 2);
    assert_eq!(report.warnings, 2);
    let c2 = ContextCheck { app: app(Some(3)), exe: None, pfx: Some(pc("/p", false)), env: EnvCheck::NoCompatData };
    let r = doctor_report(None, Some(pc("/x", false)), "/run/protonhax", true, &vec![c2]);
    assert_eq!(r.errors, 1);
    assert_eq!(r.warnings, 3);
}
