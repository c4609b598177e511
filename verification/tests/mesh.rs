use varlog::access::AccessData;
use varlog::http::Error;
use varlog::logs::LogsRequest;
use varlog::servers::{
    decimal_string, gather_server_logs, log_url, logs_url, servers_handle, server_entry,
    validate_server_access, ServersLogsRequest,
};

fn s(v: &[&str]) -> Vec<String> {
    v.iter().map(|x| x.to_string()).collect()
}

fn p(k: &str, v: &str) -> (String, String) {
    (k.to_string(), v.to_string())
}

#[test]
fn every_requested_server_must_be_granted() {
    let a = AccessData { paths: vec![], servers: s(&["^web-[0-9]+$"]) };
    assert_eq!(validate_server_access(&s(&["web-1", "web-22"]), &a), Ok(()));
    assert_eq!(validate_server_access(&vec![], &a), Ok(()));
    assert_eq!(
        validate_server_access(&s(&["web-1", "db-1", "cache"]), &a),
        Err(Error::Forbidden("You do not have access to server `db-1`.".to_string()))
    );
}

#[test]
fn servers_shown_are_those_granted() {
    let a = AccessData { paths: vec![], servers: s(&["^web"]) };
    assert_eq!(servers_handle(&a, Some(s(&["web-1", "db", "web-2"]))), Ok(s(&["web-1", "web-2"])));
    assert_eq!(servers_handle(&a, None), Err(Error::ServiceUnavailable));
    let none = AccessData { paths: vec![], servers: vec![] };
    assert_eq!(servers_handle(&none, Some(s(&["web-1"]))), Ok(vec![]));
}

#[test]
fn server_keys_of_a_query_name_the_servers() {
    let q = vec![p("server", "a"), p("pattern", "x"), p("server", "b"), p("servers", "c")];
    assert_eq!(ServersLogsRequest::from_query_pairs(q).servers, s(&["a", "b"]));
    assert!(ServersLogsRequest::from_query_pairs(vec![]).servers.is_empty());
}

#[test]
fn gathered_logs_fall_back_per_server() {
    let out = gather_server_logs(s(&["a", "b"]), vec![Some(s(&["l1", "l2"])), None]);
    assert_eq!(out, vec![("a".to_string(), s(&["l1", "l2"])), ("b".to_string(), s(&["Could not find log file."]))]);
    assert_eq!(server_entry(None), s(&["Could not find log file."]));
}

#[test]
fn requests_passed_on_to_other_servers() {
    assert_eq!(logs_url("host:8080"), "http://host:8080/v1/logs");
    assert_eq!(log_url("host:8080", "nginx/error.log"), "http://host:8080/v1/logs/nginx/error.log");
    let req = LogsRequest { take: None, skip: Some(120), pattern: Some("GET".to_string()) };
    assert_eq!(req.query_pairs(), vec![p("pattern", "GET"), p("skip", "120"), p("take", "10")]);
    let defaults = LogsRequest { take: None, skip: None, pattern: None };
    assert_eq!(defaults.query_pairs(), vec![p("pattern", ""), p("skip", "0"), p("take", "10")]);
}

#[test]
fn numbers_are_written_in_decimal() {
    for n in [0usize, 7, 9, 10, 99, 100, 1234567, usize::MAX] {
        assert_eq!(decimal_string(n), format!("{}", n));
    }
}
