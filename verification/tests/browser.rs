use varlog::client::{
    check_submission, element_id, parse_count, format_server_logs, help_id, radio_checked, tab_ids,
    toggle_server, AuthRequest, GetLogsRequest, VarlogClient,
};

fn s(v: &[&str]) -> Vec<String> {
    v.iter().map(|x| x.to_string()).collect()
}

#[test]
fn element_ids_are_lowercase_with_dashes() {
    assert_eq!(element_id("Available Servers"), "available-servers");
    assert_eq!(element_id("web-1:8080"), "web-1:8080");
    let (tab, target, pane) = tab_ids("My Logs");
    assert_eq!(tab, "my-logs-tab");
    assert_eq!(target, "#my-logs-tab-pane");
    assert_eq!(pane, "my-logs-tab-pane");
    assert_eq!(help_id("Logs Access"), "Logs AccessHelp");
}

#[test]
fn ticking_and_clearing_servers() {
    let t = toggle_server(s(&["a", "b"]), true, "c".to_string());
    assert_eq!(t, s(&["a", "b", "c"]));
    assert_eq!(toggle_server(t, false, "c".to_string()), s(&["a", "b"]));
    assert_eq!(toggle_server(s(&["a", "b", "a"]), false, "a".to_string()), s(&["b", "a"]));
    assert_eq!(toggle_server(s(&["a"]), false, "z".to_string()), s(&["a"]));
}

#[test]
fn submissions_need_a_file_and_a_server() {
    assert_eq!(check_submission(&None, &s(&["a"])), Err("You must select a logfile.".to_string()));
    assert_eq!(
        check_submission(&Some("syslog".to_string()), &vec![]),
        Err("You must select at least 1 server.".to_string())
    );
    assert_eq!(check_submission(&Some("syslog".to_string()), &s(&["a"])), Ok("syslog".to_string()));
}

#[test]
fn gathered_logs_are_shown_per_server() {
    let entries = vec![
        ("web-1".to_string(), s(&["l1", "l2"])),
        ("web-2".to_string(), vec![]),
    ];
    assert_eq!(format_server_logs(&entries), "---\nweb-1\n---\nl1\t\nl2\n---\nweb-2\n---\n");
    assert_eq!(format_server_logs(&vec![]), "");
}

#[test]
fn radio_buttons_follow_the_selected_file() {
    assert!(radio_checked(&Some("syslog".to_string()), "syslog"));
    assert!(!radio_checked(&Some("syslog".to_string()), "kern.log"));
    assert!(!radio_checked(&None, "syslog"));
    assert!(radio_checked(&None, ""));
}

#[test]
fn the_client_sends_its_token_and_queries() {
    let c = VarlogClient::new("tok");
    assert_eq!(c.authorization(), "Bearer tok");
    let req = GetLogsRequest {
        filename: "syslog".to_string(),
        servers: s(&["a", "b"]),
        pattern: "err".to_string(),
        skip: 3,
        take: 10,
    };
    assert_eq!(VarlogClient::servers_log_path(&req), "/v1/servers/logs/syslog");
    let q: Vec<(String, String)> = VarlogClient::servers_log_query(&req);
    let want: Vec<(String, String)> = [("server", "a"), ("server", "b"), ("pattern", "err"), ("skip", "3"), ("take", "10")]
        .iter()
        .map(|(k, v)| (k.to_string(), v.to_string()))
        .collect();
    assert_eq!(q, want);
}

#[test]
fn answers_resolve_to_data_or_a_message() {
    assert_eq!(VarlogClient::resolve::<u8>(false, Some(1), None), Err("Looks like we hit a snag..".to_string()));
    assert_eq!(VarlogClient::resolve::<u8>(true, Some(1), Some("e".to_string())), Ok(1));
    assert_eq!(VarlogClient::resolve::<u8>(true, None, Some("denied".to_string())), Err("denied".to_string()));
    assert_eq!(VarlogClient::resolve::<u8>(true, None, None), Err("Looks like we hit a snag..".to_string()));
}

#[test]
fn the_access_form_asks_for_one_pattern_each() {
    let r = AuthRequest::from_inputs(".*".to_string(), "web".to_string());
    assert_eq!(r.paths, s(&[".*"]));
    assert_eq!(r.servers, s(&["web"]));
}

#[test]
fn ticked_servers_follow_the_boxes() {
    let mut ticked: Vec<String> = vec![];
    for (checked, server) in [(true, "a"), (true, "b"), (true, "c"), (false, "a"), (true, "a"), (false, "c")] {
        ticked = toggle_server(ticked, checked, server.to_string());
    }
    assert_eq!(ticked, s(&["b", "a"]));
}

#[test]
fn counts_typed_into_the_form() {
    assert_eq!(parse_count("12"), Some(12));
    assert_eq!(parse_count("+3"), Some(3));
    assert_eq!(parse_count("007"), Some(7));
    assert_eq!(parse_count(""), None);
    assert_eq!(parse_count("+"), None);
    assert_eq!(parse_count("-1"), None);
    assert_eq!(parse_count("1a"), None);
    assert_eq!(parse_count(" 1"), None);
    assert_eq!(parse_count("99999999999999999999999"), None);
}
