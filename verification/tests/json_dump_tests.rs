use chrono::{Datelike, NaiveDate, Timelike};
use tophub::dump::{
    csv_header, export_file_name, json_export_text, jsonl_export_text, node_csv_rows, text_ends_with,
    time_stamp, timestamp_filename, DumpFormat, LocalTime, NodeItem, CSV_COLUMNS,
};
use tophub::json::{answer_text, str_or_default, text_of, to_json_lines, value_to_text, Json};

fn s(x: &str) -> String {
    x.to_string()
}

fn obj(fields: Vec<(&str, Json)>) -> Json {
    Json::Object(fields.into_iter().map(|(k, v)| (k.to_string(), v)).collect())
}

fn time(year: i32, month: u32, day: u32, hour: u32, minute: u32, second: u32) -> LocalTime {
    LocalTime { year, month, day, hour, minute, second }
}

fn hot(rank: &str, title: &str) -> Json {
    obj(
        vec![
            ("rank", Json::Number(s(rank))),
            ("title", Json::Str(s(title))),
            ("url", Json::Str(s("https://example.com/a"))),
            ("extra", obj(vec![("hot", Json::Number(s("12")))])),
            ("time", Json::Null),
        ],
    )
}

fn node_answer() -> Json {
    let node = obj(
        vec![
            ("hashid", Json::Str(s("mproPpoq6O"))),
            ("name", Json::Str(s("知乎"))),
            ("display", Json::Str(s("热榜"))),
            ("domain", Json::Str(s("zhihu.com"))),
            ("logo", Json::Str(s("logo.png"))),
            ("latest_update_timestamp", Json::Number(s("1700000000"))),
            ("items", Json::Array(vec![hot("1", "first"), hot("2", "second")])),
        ],
    );
    obj(vec![("data", node), ("error", Json::Bool(false))])
}

#[test]
fn value_text_of_each_kind() {
    assert_eq!(value_to_text(&Json::Null), "");
    assert_eq!(value_to_text(&Json::Bool(true)), "true");
    assert_eq!(value_to_text(&Json::Bool(false)), "false");
    assert_eq!(value_to_text(&Json::Number(s("3.5"))), "3.5");
    assert_eq!(value_to_text(&Json::Str(s("a \"quoted\" text"))), "a \"quoted\" text");
    assert_eq!(value_to_text(&Json::Array(vec![Json::Number(s("1"))])), "[1]");
    assert_eq!(value_to_text(&obj(vec![("a", Json::Null)])), "{\"a\":null}");
    // members of an object are written sorted by key
    let nested = obj(vec![("b", Json::Str(s("x\"y"))), ("a", Json::Array(vec![Json::Bool(false), Json::Number(s("2.5"))]))]);
    assert_eq!(value_to_text(&nested), "{\"a\":[false,2.5],\"b\":\"x\\\"y\"}");
}

#[test]
fn get_finds_object_members_only() {
    let v = obj(vec![("a", Json::Number(s("1"))), ("b", Json::Str(s("x")))]);
    assert!(matches!(v.get("b"), Some(Json::Str(t)) if t == "x"));
    assert!(v.get("c").is_none());
    assert!(Json::Str(s("a")).get("a").is_none());
    assert!(Json::Array(vec![]).get("0").is_none());
}

#[test]
fn as_array_of_arrays_only() {
    let v = Json::Array(vec![Json::Null, Json::Bool(true)]);
    assert_eq!(v.as_array().map(|a| a.len()), Some(2));
    assert!(Json::Null.as_array().is_none());
}

#[test]
fn text_and_string_defaults() {
    assert_eq!(text_of(None), "");
    assert_eq!(text_of(Some(&Json::Number(s("5")))), "5");
    assert_eq!(str_or_default(Some(&Json::Str(s("v"))), "d"), "v");
    assert_eq!(str_or_default(Some(&Json::Number(s("5"))), "d"), "d");
    assert_eq!(str_or_default(None, "d"), "d");
}

#[test]
fn dump_extensions_and_file_names() {
    assert_eq!(DumpFormat::Csv.extension(), "csv");
    assert_eq!(DumpFormat::Json.extension(), "json");
    assert_eq!(DumpFormat::Jsonl.extension(), "jsonl");
    assert_eq!(timestamp_filename(&time(2024, 1, 2, 3, 4, 5), "csv"), "2024-01-02-03-04-05.csv");
    assert_eq!(timestamp_filename(&time(2025, 11, 30, 23, 59, 60), "jsonl"), "2025-11-30-23-59-60.jsonl");
}

#[test]
fn csv_header_columns() {
    let h = csv_header();
    assert_eq!(h.len(), CSV_COLUMNS);
    assert_eq!(
        h,
        vec![
            "hashid",
            "name",
            "display",
            "domain",
            "logo",
            "latest_update_timestamp",
            "rank",
            "title",
            "description",
            "url",
            "extra",
            "thumbnail",
            "time"
        ]
    );
}

#[test]
fn csv_rows_one_per_hot_item() {
    let items = vec![NodeItem { hashid: s("mproPpoq6O"), data: node_answer() }];
    let rows = node_csv_rows(&items);
    assert_eq!(rows.len(), 2);
    assert_eq!(
        rows[0],
        vec![
            "mproPpoq6O",
            "知乎",
            "热榜",
            "zhihu.com",
            "logo.png",
            "1700000000",
            "1",
            "first",
            "",
            "https://example.com/a",
            "{\"hot\":12}",
            "",
            ""
        ]
    );
    assert_eq!(rows[1][6], "2");
    assert_eq!(rows[1][7], "second");
    for r in &rows {
        assert_eq!(r.len(), CSV_COLUMNS);
    }
}

#[test]
fn csv_rows_fall_back_to_requested_hashid() {
    // the answer is the node itself (no `data` member) and names no hashid
    let node = obj(
        vec![("name", Json::Number(s("7"))), ("items", Json::Array(vec![hot("9", "t")]))],
    );
    let items = vec![NodeItem { hashid: s("KqndgxeLl9"), data: node }];
    let rows = node_csv_rows(&items);
    assert_eq!(rows.len(), 1);
    assert_eq!(rows[0][0], "KqndgxeLl9");
    // a name that is not a string gives an empty cell
    assert_eq!(rows[0][1], "");
    assert_eq!(rows[0][6], "9");
}

#[test]
fn csv_rows_skip_nodes_without_items() {
    let no_items = obj(vec![("data", obj(vec![("name", Json::Str(s("n")))]))]);
    let not_array = obj(vec![("items", Json::Str(s("none")))]);
    let items = vec![
        NodeItem { hashid: s("a"), data: no_items },
        NodeItem { hashid: s("b"), data: Json::Null },
        NodeItem { hashid: s("c"), data: not_array },
        NodeItem { hashid: s("d"), data: node_answer() },
    ];
    let rows = node_csv_rows(&items);
    assert_eq!(rows.len(), 2);
    assert_eq!(rows[0][0], "mproPpoq6O");
    assert!(node_csv_rows(&Vec::new()).is_empty());
}

#[test]
fn csv_rows_keep_input_order() {
    let first = obj(vec![("hashid", Json::Str(s("h1"))), ("items", Json::Array(vec![hot("1", "a")]))]);
    let second = obj(vec![("hashid", Json::Str(s("h2"))), ("items", Json::Array(vec![hot("1", "b"), hot("2", "c")]))]);
    let items = vec![
        NodeItem { hashid: s("x"), data: first },
        NodeItem { hashid: s("y"), data: second },
    ];
    let rows = node_csv_rows(&items);
    let order: Vec<(&str, &str)> = rows.iter().map(|r| (r[0].as_str(), r[7].as_str())).collect();
    assert_eq!(order, vec![("h1", "a"), ("h2", "b"), ("h2", "c")]);
}

#[test]
fn export_names_complete_the_extension() {
    let now = time(2024, 1, 2, 3, 4, 5);
    assert_eq!(export_file_name(Some("weibo.csv"), &now, "csv"), "weibo.csv");
    assert_eq!(export_file_name(Some("weibo"), &now, "csv"), "weibo.csv");
    assert_eq!(export_file_name(Some("weibo.json"), &now, "jsonl"), "weibo.json.jsonl");
    assert_eq!(export_file_name(Some("a.jsonl"), &now, "jsonl"), "a.jsonl");
    assert_eq!(export_file_name(None, &now, "json"), "2024-01-02-03-04-05.json");
}

#[test]
fn suffix_tests() {
    assert!(text_ends_with("weibo.csv", ".csv"));
    assert!(text_ends_with("abc", ""));
    assert!(!text_ends_with("csv", ".csv"));
    assert!(!text_ends_with("weibo.json", ".jsonl"));
}

#[test]
fn time_stamps_are_zero_padded() {
    assert_eq!(time_stamp(&time(2024, 1, 2, 3, 4, 5)), "2024-01-02-03-04-05");
    assert_eq!(time_stamp(&time(7, 12, 31, 0, 0, 0)), "0007-12-31-00-00-00");
    assert_eq!(time_stamp(&time(9999, 10, 10, 10, 10, 10)), "9999-10-10-10-10-10");
    // a second later, another name
    assert_ne!(time_stamp(&time(2024, 1, 2, 3, 4, 5)), time_stamp(&time(2024, 1, 2, 3, 4, 6)));
    assert_ne!(time_stamp(&time(2024, 1, 2, 3, 4, 5)), time_stamp(&time(2024, 10, 2, 3, 4, 5)));
}

#[test]
fn time_stamps_match_chrono() {
    let t = NaiveDate::from_ymd_opt(2023, 11, 4).unwrap().and_hms_opt(9, 8, 7).unwrap();
    let now = time(t.year(), t.month(), t.day(), t.hour(), t.minute(), t.second());
    assert_eq!(time_stamp(&now), t.format("%Y-%m-%d-%H-%M-%S").to_string());
}

fn two_items() -> Vec<NodeItem> {
    vec![
        NodeItem { hashid: s("h1"), data: obj(vec![("n", Json::Number(s("1")))]) },
        NodeItem { hashid: s("h2"), data: Json::Null },
    ]
}

#[test]
fn jsonl_export_one_object_per_line() {
    assert_eq!(
        jsonl_export_text(&two_items()),
        "{\"data\":{\"n\":1},\"hashid\":\"h1\"}\n{\"data\":null,\"hashid\":\"h2\"}\n"
    );
    assert_eq!(jsonl_export_text(&Vec::new()), "");
}

#[test]
fn json_export_holds_items() {
    let text = json_export_text(&two_items());
    assert!(text.ends_with('\n'));
    let parsed: serde_json::Value = serde_json::from_str(&text).unwrap();
    let expected: serde_json::Value = serde_json::from_str(
        r#"{"items":[{"hashid":"h1","data":{"n":1}},{"hashid":"h2","data":null}]}"#,
    )
    .unwrap();
    assert_eq!(parsed, expected);
    assert_eq!(text, format!("{}\n", serde_json::to_string_pretty(&expected).unwrap()));
}

#[test]
fn json_lines_of_values() {
    let values = vec![Json::Number(s("1")), Json::Str(s("a\nb")), Json::Array(vec![])];
    assert_eq!(to_json_lines(&values), "1\n\"a\\nb\"\n[]\n");
}

#[test]
fn answers_are_indented() {
    let v = obj(vec![("a", Json::Array(vec![Json::Number(s("1"))]))]);
    assert_eq!(answer_text(&v), "{\n  \"a\": [\n    1\n  ]\n}");
}

#[test]
fn duplicates_are_equal_in_text() {
    let v = obj(vec![
        ("b", Json::Array(vec![Json::Number(s("1.5")), Json::Null, Json::Bool(true)])),
        ("a", obj(vec![("x", Json::Str(s("y")))])),
    ]);
    let d = v.duplicate();
    assert_eq!(value_to_text(&d), value_to_text(&v));
    assert_eq!(value_to_text(&d), "{\"a\":{\"x\":\"y\"},\"b\":[1.5,null,true]}");
    assert!(matches!(d.get("a").and_then(|a| a.get("x")), Some(Json::Str(t)) if t == "y"));
}

#[test]
fn file_names_sort_by_time() {
    let times = [
        time(999, 12, 31, 23, 59, 59),
        time(2024, 9, 30, 23, 59, 59),
        time(2024, 10, 1, 0, 0, 0),
        time(2024, 10, 1, 0, 0, 9),
        time(2024, 10, 1, 0, 0, 10),
        time(2024, 10, 1, 9, 0, 0),
        time(2024, 10, 1, 10, 0, 0),
    ];
    let names: Vec<String> = times.iter().map(|t| timestamp_filename(t, "jsonl")).collect();
    for pair in names.windows(2) {
        assert!(pair[0].as_bytes() < pair[1].as_bytes(), "{} before {}", pair[0], pair[1]);
    }
}

#[test]
fn cell_text_is_single_line_but_for_strings() {
    let v = obj(vec![("t", Json::Str(s("line\nbreak\r")))]);
    let text = value_to_text(&v);
    assert_eq!(text, "{\"t\":\"line\\nbreak\\r\"}");
    assert!(!text.contains('\n') && !text.contains('\r'));
    let a = Json::Array(vec![Json::Str(s("a\nb")), Json::Number(s("-1.5e+3"))]);
    assert!(!value_to_text(&a).contains('\n'));
    assert_eq!(value_to_text(&Json::Str(s("a\nb"))), "a\nb");
}
