use webshell::registrar::{desired_registration, registration_update};
use webshell::{initial_url, is_startup_launch, startup_marker, store_file_path,
    webview_data_directory};

#[test]
fn registration_is_idempotent() {
    let exe = "C:\\apps\\shell.exe";
    let first = registration_update(None, exe, "--startup");
    assert_eq!(first, Some("C:\\apps\\shell.exe --startup".to_string()));

    let record = first.unwrap();
    let second = registration_update(Some(&record), exe, "--startup");
    assert_eq!(second, None);

    let third = registration_update(Some(&record), exe, "--startup");
    assert_eq!(third, None);
    assert_eq!(record, desired_registration(exe, "--startup"));
}

#[test]
fn registration_replaces_stale_record() {
    let stale = "C:\\old\\shell.exe --startup".to_string();
    let update = registration_update(Some(&stale), "C:\\new\\shell.exe", "--startup");
    assert_eq!(update, Some("C:\\new\\shell.exe --startup".to_string()));
}

#[test]
fn startup_flag_is_recognized() {
    let marker = startup_marker();
    assert!(is_startup_launch(Some(&marker)));
    assert!(is_startup_launch(Some(&"--startup".to_string())));
    assert!(!is_startup_launch(Some(&"--other".to_string())));
    assert!(!is_startup_launch(None));
}

#[test]
fn initial_url_ignores_launch_mode() {
    assert_eq!(initial_url(true), initial_url(false));
    assert_eq!(initial_url(false), "https://youtu.be/");
}

#[test]
fn data_paths_are_composed_from_base() {
    assert_eq!(store_file_path("/home/u/.local/share"),
        "/home/u/.local/share/WebviewBrowser/cookies.json");
    assert_eq!(webview_data_directory(Some("/data")), "/data/TrendsIgniteWebView");
    assert_eq!(webview_data_directory(None), "TrendsIgniteWebView");
}
