use varlog::access::{anchor_pattern, validate_paths, AccessData, RegisterError, RegisterRequest};
use varlog::logs::{accessible_log_files, authorize_log_file, log_not_found};
use varlog::http::Error;

fn s(v: &[&str]) -> Vec<String> {
    v.iter().map(|x| x.to_string()).collect()
}

#[test]
fn anchors_are_added_only_where_missing() {
    assert_eq!(anchor_pattern("syslog"), "^syslog$");
    assert_eq!(anchor_pattern("^syslog"), "^syslog$");
    assert_eq!(anchor_pattern("syslog$"), "^syslog$");
    assert_eq!(anchor_pattern("^syslog$"), "^syslog$");
    assert_eq!(anchor_pattern(""), "^$");
    assert_eq!(anchor_pattern(".*"), "^.*$");
    let once = anchor_pattern("a.log");
    assert_eq!(anchor_pattern(&once), once);
}

#[test]
fn patterns_grant_access() {
    let a = AccessData { paths: s(&["^syslog$", "^nginx/.*$"]), servers: s(&[".*"]) };
    assert!(a.file_access_authorized("syslog"));
    assert!(a.file_access_authorized("nginx/access.log"));
    assert!(!a.file_access_authorized("auth.log"));
    assert!(!a.file_access_authorized("syslog.1"));
    assert!(a.server_access_authorized("host-1:8080"));
}

#[test]
fn no_patterns_grant_nothing() {
    let a = AccessData { paths: vec![], servers: vec![] };
    assert!(!a.file_access_authorized(""));
    assert!(!a.file_access_authorized("syslog"));
    assert!(!a.server_access_authorized("localhost:8080"));
}

#[test]
fn an_invalid_pattern_grants_nothing() {
    let a = AccessData { paths: s(&["(", ".*"]), servers: s(&["[z-a]"]) };
    assert!(!a.file_access_authorized("syslog"));
    assert!(!a.server_access_authorized("anything"));
}

#[test]
fn register_requests_are_checked() {
    let empty = RegisterRequest { paths: vec![], servers: s(&[".*"]) };
    assert_eq!(empty.validate(), Err(RegisterError::NoPaths));
    assert_eq!(empty.validate().unwrap_err().code(), "length");
    let parent = RegisterRequest { paths: s(&["ok", "../etc/passwd"]), servers: vec![] };
    assert_eq!(parent.validate(), Err(RegisterError::ParentDirectory));
    assert_eq!(RegisterError::ParentDirectory.code(), "Parent directory access is forbidden.");
    let bad = RegisterRequest { paths: s(&["(unclosed"]), servers: vec![] };
    assert_eq!(bad.validate(), Err(RegisterError::InvalidPaths));
    assert_eq!(RegisterError::InvalidPaths.code(), "Invalid file paths");
    assert_eq!(validate_paths(&s(&[".*", "sys.*"])), Ok(()));
    assert_eq!(validate_paths(&vec![]), Ok(()));
}

#[test]
fn granted_access_anchors_paths() {
    let req = RegisterRequest { paths: s(&["syslog", "^nginx/.*"]), servers: s(&[".*", "web"]) };
    let a = req.access_data().unwrap();
    assert_eq!(a.paths, s(&["^syslog$", "^nginx/.*$"]));
    assert_eq!(a.servers, s(&[".*", "web"]));
    assert!(a.file_access_authorized("syslog"));
    assert!(!a.file_access_authorized("syslog2"));
    let refused = RegisterRequest { paths: s(&["a..b"]), servers: vec![] };
    assert_eq!(refused.access_data().unwrap_err(), RegisterError::ParentDirectory);
}

#[test]
fn log_file_requests_are_checked() {
    let a = AccessData { paths: s(&["^syslog$", "^/var/log/kern.log$"]), servers: vec![] };
    assert_eq!(authorize_log_file(&a, "/var/log", "syslog"), Ok("/var/log/syslog".to_string()));
    assert_eq!(authorize_log_file(&a, "/var/log", "/var/log/kern.log"), Ok("/var/log/kern.log".to_string()));
    assert_eq!(
        authorize_log_file(&a, "/var/log", "../syslog"),
        Err(Error::Forbidden("The `..` operator is forbidden.".to_string()))
    );
    assert_eq!(
        authorize_log_file(&a, "/var/log", "auth.log"),
        Err(Error::Forbidden("You do not have access to file auth.log".to_string()))
    );
    assert_eq!(
        log_not_found("/var/log/syslog"),
        Error::BadRequest("/var/log/syslog does not exist.".to_string())
    );
}

#[test]
fn listed_log_files_are_relative_and_granted() {
    let a = AccessData { paths: s(&["^sys.*$", "^nginx/.*$"]), servers: vec![] };
    let files = s(&["/var/log/syslog", "/var/log/auth.log", "/var/log/nginx/error.log", "/tmp/syslog", "/var/log/sys"]);
    assert_eq!(accessible_log_files(&a, "/var/log", &files), s(&["syslog", "nginx/error.log", "sys"]));
    let none = AccessData { paths: vec![], servers: vec![] };
    assert!(accessible_log_files(&none, "/var/log", &files).is_empty());
}

#[test]
fn log_files_are_found_in_the_configured_directory() {
    let all = AccessData { paths: s(&["^.*$"]), servers: s(&["^.*$"]) };
    assert_eq!(authorize_log_file(&all, "/tmp", "x.log"), Ok("/tmp/x.log".to_string()));
    assert_eq!(authorize_log_file(&all, "/tmp", "/tmp/x.log"), Ok("/tmp/x.log".to_string()));
    assert_eq!(authorize_log_file(&all, "/tmp", "nested/y.log"), Ok("/tmp/nested/y.log".to_string()));
    let logs = AccessData { paths: s(&["^.*log$"]), servers: vec![] };
    let files = s(&["/tmp/a.log", "/tmp/b.txt", "/var/log/c.log", "/tmp/sub/d.log"]);
    assert_eq!(accessible_log_files(&logs, "/tmp", &files), s(&["a.log", "sub/d.log"]));
    assert_eq!(accessible_log_files(&logs, "/var/log", &files), s(&["c.log"]));
}

#[test]
fn one_more_pattern_keeps_access() {
    let a = AccessData { paths: s(&["^syslog$"]), servers: vec![] };
    let b = AccessData { paths: s(&["^syslog$", "^auth.log$"]), servers: vec![] };
    assert!(a.file_access_authorized("syslog"));
    assert!(b.file_access_authorized("syslog"));
    assert!(b.file_access_authorized("auth.log"));
    assert!(!a.file_access_authorized("auth.log"));
    let broken = AccessData { paths: s(&["^syslog$", "("]), servers: vec![] };
    assert!(!broken.file_access_authorized("syslog"));
}
