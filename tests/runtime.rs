use protonhax::runtime::{
    format_duration_ago, format_elapsed, is_ascii_digits, parse_started_at, push_decimal, runtime_dir,
    runtime_root, second_field, uid_from_proc_status, unix_now_secs,
};

#[test]
fn elapsed_texts() {
    assert_eq!(format_elapsed(0), "0s ago");
    assert_eq!(format_elapsed(59), "59s ago");
    assert_eq!(format_elapsed(60), "1m ago");
    assert_eq!(format_elapsed(61), "1m 1s ago");
    assert_eq!(format_elapsed(3600), "1h ago");
    assert_eq!(format_elapsed(3661), "1h 1m ago");
    assert_eq!(format_elapsed(86_400), "1d ago");
    assert_eq!(format_elapsed(90_061), "1d 1h ago");
    assert_eq!(format_elapsed(2 * 86_400 + 59), "2d ago");
}

#[test]
fn duration_since_future_start_is_zero() {
    assert_eq!(format_duration_ago(u64::MAX), "0s ago");
    assert!(unix_now_secs() > 0);
}

#[test]
fn decimal_text() {
    let mut s = String::from("n=");
    push_decimal(&mut s, 18_446_744_073_709_551_615);
    assert_eq!(s, "n=18446744073709551615");
}

#[test]
fn start_time_parsing() {
    assert_eq!(parse_started_at("1700000000\n"), Some(1_700_000_000));
    assert_eq!(parse_started_at("  +42 "), Some(42));
    assert_eq!(parse_started_at("18446744073709551615"), Some(u64::MAX));
    assert_eq!(parse_started_at("18446744073709551616"), None);
    assert_eq!(parse_started_at(""), None);
    assert_eq!(parse_started_at("+"), None);
    assert_eq!(parse_started_at("-1"), None);
    assert_eq!(parse_started_at("12a"), None);
}

#[test]
fn runtime_directories() {
    assert_eq!(runtime_dir(Some("/run/user/1000".to_string()), "5"), "/run/user/1000");
    assert_eq!(runtime_dir(None, "1000"), "/run/user/1000");
    assert_eq!(runtime_root("/run/user/1000"), "/run/user/1000/protonhax");
    assert_eq!(runtime_root("/tmp/"), "/tmp/protonhax");
}

#[test]
fn digit_strings() {
    assert!(is_ascii_digits("1000"));
    assert!(is_ascii_digits(""));
    assert!(!is_ascii_digits("10a"));
}

#[test]
fn uid_from_status_text() {
    let status = "Name:\tbash\nUmask:\t0022\nUid:\t1000\t1000\t1000\t1000\nGid:\t100\n";
    assert_eq!(uid_from_proc_status(status), Some("1000".to_string()));
    assert_eq!(uid_from_proc_status("Name:\tx\n"), None);
    assert_eq!(uid_from_proc_status("Uid:\tabc\n"), None);
    assert_eq!(uid_from_proc_status("Uid:\n"), None);
    assert_eq!(second_field("  a  b c"), Some("b".to_string()));
    assert_eq!(second_field("a"), None);
}
