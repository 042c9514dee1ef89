use vstd::prelude::*;
use vstd::string::*;

pub mod channel;
pub mod codec;
pub mod control;
pub mod json;
pub mod messages;
pub mod registrar;
pub mod store;

verus! {

/// The launch-time marker appended to the executable path in the
/// run-at-login registration.
pub fn startup_marker() -> (r: String)
    ensures
        r@ == "--startup"@,
{
    ("--startup").to_owned()
}

/// True exactly when the first process argument is the startup marker,
/// meaning the process was launched by the login-time mechanism.
pub fn is_startup_launch(first_arg: Option<&String>) -> (r: bool)
    ensures
        r == (first_arg matches Some(a) && a@ == "--startup"@),
{
    match first_arg {
        Some(a) => {
            let m = startup_marker();
            *a == m
        },
        None => false,
    }
}

/// The target first loaded into the content surface. The launch mode does
/// not change the target, only the initial window visibility.
pub fn initial_url(from_startup: bool) -> (r: String)
    ensures
        r@ == "https://youtu.be/"@,
{
    if from_startup {
        ("https://youtu.be/").to_owned()
    } else {
        ("https://youtu.be/").to_owned()
    }
}

/// The store file's location under the per-application local-data
/// directory `base`.
pub fn store_file_path(base: &str) -> (r: String)
    ensures
        r@ == base@ + "/WebviewBrowser/cookies.json"@,
{
    let mut s = base.to_owned();
    s.append("/WebviewBrowser/cookies.json");
    s
}

/// The embedded browser's profile directory under the local-data directory
/// `base`, or a bare relative name when no such directory exists.
pub fn webview_data_directory(base: Option<&str>) -> (r: String)
    ensures
        base matches Some(b) ==> r@ == b@ + "/TrendsIgniteWebView"@,
        base is None ==> r@ == "TrendsIgniteWebView"@,
{
    match base {
        Some(b) => {
            let mut s = b.to_owned();
            s.append("/TrendsIgniteWebView");
            s
        },
        None => ("TrendsIgniteWebView").to_owned(),
    }
}

} // verus!
