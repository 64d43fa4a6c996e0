use pwr_viewgen::shot::encode_path;
use pwr_viewgen::shot::env_tried;
use pwr_viewgen::shot::uid_is_root;
use pwr_viewgen::shot::ShotError;

#[test]
fn not_found_error_names_env_escape_hatch_and_tried_paths() {
    let err = ShotError::NotFound {
        tried: vec!["/usr/bin/chromium".into(), "/usr/bin/google-chrome".into()],
    };
    let message = err.to_string();
    assert!(message.contains("PWR_VIEWGEN_CHROME"), "got: {message}");
    assert!(message.contains("/usr/bin/chromium"));
    assert!(message.contains("/usr/bin/google-chrome"));
}

#[test]
fn not_found_message_lists_paths_one_per_line() {
    let err = ShotError::NotFound {
        tried: vec!["a".into(), "b".into()],
    };
    assert_eq!(
        err.to_string(),
        "no Chrome/Chromium executable found (set PWR_VIEWGEN_CHROME=/path/to/chrome to override); tried:\na\nb"
    );
    assert_eq!(ShotError::Other("boom".into()).to_string(), "boom");
}

#[test]
fn paths_are_percent_encoded_for_file_urls() {
    assert_eq!(encode_path("/tmp/a b%c.html"), "/tmp/a%20b%25c.html");
    assert_eq!(encode_path("/plain"), "/plain");
    assert!(!encode_path("  ").contains(' '));
}

#[test]
fn env_label_names_the_variable() {
    assert_eq!(
        env_tried("/x/chrome"),
        "PWR_VIEWGEN_CHROME=/x/chrome (env var set but not executable)"
    );
}

#[test]
fn status_text_decides_root() {
    assert!(uid_is_root("Name:\tx\nUid:\t0\t0\t0\t0\nGid:\t0\n"));
    assert!(!uid_is_root("Name:\tx\nUid:\t1000\t1000\t1000\t1000\n"));
    assert!(!uid_is_root("Name:\tx\n"));
    assert!(!uid_is_root("Uid:\t01\n"));
    assert!(uid_is_root("Uid:\nUid: 0\n"), "a Uid line without an id is skipped");
    assert!(uid_is_root("Uid:\t0\r\n"));
}
