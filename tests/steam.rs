use protonhax::path::join_path;
use protonhax::steam::{
    app_meta_from_manifest, manifest_location, parse_acf_line, parse_manifest_info,
    steamapps_path_from_compat,
};

#[test]
fn parses_manifest_fields() {
    let manifest = r#"
            "AppState"
            {
                "appid"      "1217060"
                "name"       "Gunfire Reborn"
                "installdir" "Gunfire Reborn"
            }
        "#;

    let info = parse_manifest_info(manifest);
    assert_eq!(info.name.as_deref(), Some("Gunfire Reborn"));
    assert_eq!(info.installdir.as_deref(), Some("Gunfire Reborn"));
}

#[test]
fn acf_line_fields() {
    assert_eq!(parse_acf_line("\t\"name\"\t\t\"A B\""), Some(("name".to_string(), "A B".to_string())));
    assert_eq!(parse_acf_line("\"AppState\""), None);
    assert_eq!(parse_acf_line("{"), None);
}

#[test]
fn manifest_scan_stops_when_both_known() {
    let m = "\"name\" \"A\"\n\"installdir\" \"D\"\n\"name\" \"B\"\n";
    let info = parse_manifest_info(m);
    assert_eq!(info.name.as_deref(), Some("A"));
    assert_eq!(info.installdir.as_deref(), Some("D"));
    let m2 = "\"name\" \"A\"\n\"name\" \"B\"\n";
    assert_eq!(parse_manifest_info(m2).name.as_deref(), Some("B"));
    assert_eq!(parse_manifest_info(m2).installdir, None);
}

#[test]
fn path_joining() {
    assert_eq!(join_path("/a", "b"), "/a/b");
    assert_eq!(join_path("/a/", "b"), "/a/b");
    assert_eq!(join_path("", "b"), "b");
    assert_eq!(join_path("/a", "/abs"), "/abs");
}

#[test]
fn library_dir_of_compat_data() {
    assert_eq!(
        steamapps_path_from_compat("/games/steamapps/compatdata/1217060"),
        Some("/games/steamapps".to_string())
    );
    assert_eq!(steamapps_path_from_compat("/"), None);
}

#[test]
fn manifest_location_from_snapshot() {
    let env = "declare -x STEAM_COMPAT_DATA_PATH=/lib/steamapps/compatdata/42\n";
    assert_eq!(
        manifest_location(env, "42"),
        Some(("/lib/steamapps".to_string(), "/lib/steamapps/appmanifest_42.acf".to_string()))
    );
    assert_eq!(manifest_location("declare -x OTHER=1\n", "42"), None);
}

#[test]
fn meta_from_manifest() {
    let meta = app_meta_from_manifest("/lib/steamapps", "\"name\" \"Game\"\n\"installdir\" \"GameDir\"\n");
    assert_eq!(meta.name.as_deref(), Some("Game"));
    assert_eq!(meta.install_path.as_deref(), Some("/lib/steamapps/common/GameDir"));
    let empty = app_meta_from_manifest("/lib/steamapps", "");
    assert!(empty.name.is_none() && empty.install_path.is_none());
}
