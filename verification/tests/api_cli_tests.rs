use tophub::api::{ApiRequest, Tophub};
use tophub::cli::{
    accept_calendar_mode, batch_output, calendar_mode, check_details, dump_completed_message, dumpall_completed_message,
    node_hashids, resolve_api_key, CliError,
};

fn params(r: &ApiRequest) -> Vec<(&str, &str)> {
    r.query.iter().map(|(k, v)| (k.as_str(), v.as_str())).collect()
}

fn client() -> Tophub {
    Tophub::new("KEY".to_string())
}

#[test]
fn client_defaults() {
    let t = client();
    assert_eq!(t.base_url, "https://api.tophubdata.com");
    assert_eq!(t.api_key, "KEY");
}

#[test]
fn nodes_request() {
    let r = client().nodes(3);
    assert_eq!(r.url, "https://api.tophubdata.com/nodes");
    assert_eq!(r.authorization, "KEY");
    assert_eq!(params(&r), vec![("p", "3")]);
}

#[test]
fn node_request_has_no_query() {
    let r = client().node("mproPpoq6O");
    assert_eq!(r.url, "https://api.tophubdata.com/nodes/mproPpoq6O");
    assert!(r.query.is_empty());
}

#[test]
fn node_historys_request() {
    let r = client().node_historys("mproPpoq6O", "2023-01-01");
    assert_eq!(r.url, "https://api.tophubdata.com/nodes/mproPpoq6O/historys");
    assert_eq!(params(&r), vec![("date", "2023-01-01")]);
}

#[test]
fn search_request() {
    let r = client().search("苹果", 1, "mproPpoq6O");
    assert_eq!(r.url, "https://api.tophubdata.com/search");
    assert_eq!(params(&r), vec![("q", "苹果"), ("p", "1"), ("hashid", "mproPpoq6O")]);
    let r = client().search("a", 12, "");
    assert_eq!(params(&r), vec![("q", "a"), ("p", "12"), ("hashid", "")]);
}

#[test]
fn hot_request() {
    let r = client().hot("2023-11-04");
    assert_eq!(r.url, "https://api.tophubdata.com/hot");
    assert_eq!(params(&r), vec![("date", "2023-11-04")]);
}

#[test]
fn snapshots_requests() {
    let r = client().snapshots("mproPpoq6O", Some("2025-11-11"), Some(1));
    assert_eq!(r.url, "https://api.tophubdata.com/nodes/mproPpoq6O/snapshots");
    assert_eq!(params(&r), vec![("date", "2025-11-11"), ("details", "1")]);
    let r = client().snapshots("h", None, Some(0));
    assert_eq!(params(&r), vec![("details", "0")]);
    let r = client().snapshots("h", Some("d"), None);
    assert_eq!(params(&r), vec![("date", "d")]);
    assert!(client().snapshots("h", None, None).query.is_empty());
}

#[test]
fn snapshot_request() {
    let r = client().snapshot("mproPpoq6O", 12345);
    assert_eq!(r.url, "https://api.tophubdata.com/nodes/mproPpoq6O/snapshots/12345");
    assert!(r.query.is_empty());
}

#[test]
fn calendar_events_requests() {
    let r = client().calendar_events("week", Some("2023-11-04"), Some("1,2,3"));
    assert_eq!(r.url, "https://api.tophubdata.com/calendar/events");
    assert_eq!(params(&r), vec![("mode", "week"), ("date", "2023-11-04"), ("categories", "1,2,3")]);
    let r = client().calendar_events("day", None, Some("all"));
    assert_eq!(params(&r), vec![("mode", "day"), ("categories", "all")]);
    let r = client().calendar_events("day", None, None);
    assert_eq!(params(&r), vec![("mode", "day")]);
}

#[test]
fn call_appends_endpoint() {
    let t = Tophub { base_url: "http://localhost:8080".to_string(), api_key: "k".to_string() };
    let r = t.call("/x", vec![("a".to_string(), "b".to_string())]);
    assert_eq!(r.url, "http://localhost:8080/x");
    assert_eq!(r.authorization, "k");
    assert_eq!(params(&r), vec![("a", "b")]);
}

#[test]
fn api_key_priority() {
    let cli = Some("cli".to_string());
    let env = Some("env".to_string());
    assert_eq!(resolve_api_key(cli.clone(), env.clone()), Ok("cli".to_string()));
    assert_eq!(resolve_api_key(None, env), Ok("env".to_string()));
    assert_eq!(resolve_api_key(cli, None), Ok("cli".to_string()));
    assert_eq!(resolve_api_key(None, None), Err(CliError::MissingApiKey));
}

#[test]
fn hashids_split_and_trimmed() {
    assert_eq!(node_hashids("mproPpoq6O"), Ok(vec!["mproPpoq6O".to_string()]));
    assert_eq!(
        node_hashids("mproPpoq6O,KqndgxeLl9"),
        Ok(vec!["mproPpoq6O".to_string(), "KqndgxeLl9".to_string()])
    );
    assert_eq!(
        node_hashids(" a , ,b,, c d ,"),
        Ok(vec!["a".to_string(), "b".to_string(), "c d".to_string()])
    );
}

#[test]
fn empty_hashid_refused() {
    assert_eq!(node_hashids(""), Err(CliError::EmptyHashid));
    assert_eq!(node_hashids(" , ,\t"), Err(CliError::EmptyHashid));
}

#[test]
fn details_only_zero_or_one() {
    assert_eq!(check_details(None), Ok(()));
    assert_eq!(check_details(Some(0)), Ok(()));
    assert_eq!(check_details(Some(1)), Ok(()));
    assert_eq!(check_details(Some(2)), Err(CliError::InvalidDetails));
    assert_eq!(check_details(Some(255)), Err(CliError::InvalidDetails));
}

#[test]
fn calendar_modes() {
    assert_eq!(calendar_mode("day"), Ok("day".to_string()));
    assert_eq!(calendar_mode("WEEK"), Ok("week".to_string()));
    assert_eq!(calendar_mode("Month"), Ok("month".to_string()));
    assert_eq!(calendar_mode("year"), Err(CliError::InvalidMode));
    assert_eq!(calendar_mode(" day"), Err(CliError::InvalidMode));
    assert_eq!(calendar_mode(""), Err(CliError::InvalidMode));
    // lowercasing is Unicode-aware: a capital with an accent is not a mode
    assert_eq!(calendar_mode("DÀY"), Err(CliError::InvalidMode));
}

#[test]
fn lowercased_modes_accepted() {
    assert_eq!(accept_calendar_mode("month".to_string()), Ok("month".to_string()));
    assert_eq!(accept_calendar_mode("week".to_string()), Ok("week".to_string()));
    assert_eq!(accept_calendar_mode("Day".to_string()), Err(CliError::InvalidMode));
    assert_eq!(accept_calendar_mode("days".to_string()), Err(CliError::InvalidMode));
}

#[test]
fn error_messages() {
    assert_eq!(
        CliError::MissingApiKey.message(),
        "Missing API key: use --apikey <KEY> or set TOPHUB_APIKEY in .env"
    );
    assert_eq!(CliError::EmptyHashid.message(), "hashid is empty, please provide at least one hashid");
    assert_eq!(CliError::InvalidDetails.message(), "--details only supports 0 or 1");
    assert_eq!(CliError::InvalidMode.message(), "--mode only supports day/week/month");
}

#[test]
fn batch_all_succeed() {
    let r: Result<Vec<(String, i32)>, &str> = batch_output(Ok(1), Ok(2), Ok(3), Ok(4));
    assert_eq!(
        r,
        Ok(vec![
            ("nodes".to_string(), 1),
            ("node".to_string(), 2),
            ("node_historys".to_string(), 3),
            ("search".to_string(), 4)
        ])
    );
}

#[test]
fn batch_first_error_wins() {
    assert_eq!(batch_output::<i32, &str>(Ok(1), Err("b"), Err("c"), Ok(4)), Err("b"));
    assert_eq!(batch_output::<i32, &str>(Err("a"), Err("b"), Ok(3), Err("d")), Err("a"));
    assert_eq!(batch_output::<i32, &str>(Ok(1), Ok(2), Ok(3), Err("d")), Err("d"));
    assert_eq!(batch_output::<i32, &str>(Ok(1), Ok(2), Err("c"), Err("d")), Err("c"));
}

#[test]
fn completion_messages() {
    assert_eq!(
        dump_completed_message(2, "2024-01-02-03-04-05.csv"),
        "dump completed: 2 records written to 2024-01-02-03-04-05.csv"
    );
    assert_eq!(
        dumpall_completed_message(1234, "x.jsonl"),
        "dump completed: 1234 records written to x.jsonl (p=1..100)"
    );
}
