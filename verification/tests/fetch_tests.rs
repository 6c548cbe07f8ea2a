use tophub::fetch::{page_items, Attempt, DumpAll, NodeResults, Retrier, LAST_PAGE, MAX_ATTEMPTS};
use tophub::json::Json;

/// Runs the retry policy over a list of outcomes; returns the requests made
/// and the answer, if any.
fn run(outcomes: &[Result<u32, &'static str>]) -> (usize, Result<u32, Option<&'static str>>) {
    let mut r = Retrier::new();
    for (i, o) in outcomes.iter().enumerate() {
        match r.record(*o) {
            Attempt::Done(v) => return (i + 1, Ok(v)),
            Attempt::Retry => continue,
            Attempt::GiveUp(e) => return (i + 1, Err(Some(e))),
        }
    }
    (outcomes.len(), Err(None))
}

#[test]
fn retry_stops_at_first_success() {
    assert_eq!(run(&[Ok(7)]), (1, Ok(7)));
    assert_eq!(run(&[Err("a"), Ok(8)]), (2, Ok(8)));
    assert_eq!(run(&[Err("a"), Err("b"), Ok(9), Ok(10)]), (3, Ok(9)));
}

#[test]
fn retry_gives_up_after_three_failures() {
    assert_eq!(MAX_ATTEMPTS, 3);
    assert_eq!(run(&[Err("a"), Err("b"), Err("c"), Ok(1)]), (3, Err(Some("c"))));
}

#[test]
fn results_listed_in_input_order() {
    let mut results: NodeResults<&str> = NodeResults::new(4);
    assert_eq!(results.len(), 4);
    results.place(2, "c");
    results.place(0, "a");
    results.place(3, "d");
    results.place(1, "b");
    assert_eq!(results.into_items(), vec!["a", "b", "c", "d"]);
}

#[test]
fn given_up_results_are_left_out() {
    let mut results: NodeResults<u32> = NodeResults::new(3);
    results.place(2, 30);
    results.place(0, 10);
    assert_eq!(results.into_items(), vec![10, 30]);
    let empty: NodeResults<u32> = NodeResults::new(2);
    assert!(empty.into_items().is_empty());
}

#[test]
fn dumpall_walks_pages_one_to_hundred() {
    assert_eq!(LAST_PAGE, 100);
    let mut d = DumpAll::new();
    let mut pages = Vec::new();
    while let Some(p) = d.next_page() {
        pages.push(p);
        d.record_page((p % 3) as usize);
    }
    assert_eq!(pages, (1..=100).collect::<Vec<u32>>());
    let expected: usize = (1..=100u32).map(|p| (p % 3) as usize).sum();
    assert_eq!(d.total(), expected);
    assert_eq!(d.next_page(), None);
}

#[test]
fn page_items_of_answers() {
    let page = Json::Object(
        vec![(
            "data".to_string(),
            Json::Array(vec![Json::Number("1".to_string()), Json::Null]),
        )],
    );
    assert_eq!(page_items(&page).map(|v| v.len()), Some(2));
    let no_data = Json::Object(vec![("error".to_string(), Json::Bool(true))]);
    assert!(page_items(&no_data).is_none());
    let not_array = Json::Object(vec![("data".to_string(), Json::Null)]);
    assert!(page_items(&not_array).is_none());
    assert!(page_items(&Json::Null).is_none());
}

#[test]
fn settled_outcomes_drop_given_up_nodes() {
    let mut results: NodeResults<(&str, u32)> = NodeResults::new(3);
    results.settle(2, Ok::<_, &str>(("h3", 30)));
    results.settle(1, Err::<(&str, u32), _>("timed out"));
    results.settle(0, Ok::<_, &str>(("h1", 10)));
    assert_eq!(results.into_items(), vec![("h1", 10), ("h3", 30)]);
}
