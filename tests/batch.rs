use pecunia::batch::{historical_request, plan_batch, BatchError, BatchRun, FetchRequest};
use pecunia::model::IntradayPrice;

fn symbols(names: &[&str]) -> Vec<String> {
    names.iter().map(|s| s.to_string()).collect()
}

fn pairs(plan: &[FetchRequest]) -> Vec<(String, String)> {
    plan.iter().map(|r| (r.symbol.clone(), r.date.clone())).collect()
}

fn price(date: &str, minute: &str, trades: usize) -> IntradayPrice {
    IntradayPrice {
        date: date.to_string(),
        minute: minute.to_string(),
        label: minute.to_string(),
        high: Some(0x4120_0000),
        low: None,
        open: None,
        close: None,
        average: None,
        volume: Some(100),
        notional: None,
        number_of_trades: trades,
        change_over_time: None,
    }
}

#[test]
fn equal_dates_are_rejected() {
    let r = plan_batch(&symbols(&["AAPL"]), "2021-01-04", "2021-01-04");
    assert!(matches!(r, Err(BatchError::Validation)));
}

#[test]
fn inverted_range_is_rejected_before_any_request() {
    let r = BatchRun::new(&symbols(&["AAPL", "MSFT"]), "2021-01-05", "2021-01-04");
    assert!(matches!(r, Err(BatchError::Validation)));
}

#[test]
fn malformed_range_date_is_a_parse_error() {
    let r = plan_batch(&symbols(&["AAPL"]), "2021-1-04", "2021-01-05");
    assert!(matches!(r, Err(BatchError::Parse)));
    let r = plan_batch(&symbols(&["AAPL"]), "2021-01-04", "2021-02-30");
    assert!(matches!(r, Err(BatchError::Parse)));
}

#[test]
fn two_symbols_two_days_in_day_major_order() {
    let plan = plan_batch(&symbols(&["AAPL", "MSFT"]), "2021-01-04", "2021-01-05").unwrap();
    let expected = vec![
        ("AAPL".to_string(), "20210104".to_string()),
        ("MSFT".to_string(), "20210104".to_string()),
        ("AAPL".to_string(), "20210105".to_string()),
        ("MSFT".to_string(), "20210105".to_string()),
    ];
    assert_eq!(pairs(&plan), expected);
}

#[test]
fn request_count_is_days_times_symbols_with_duplicates() {
    let plan = plan_batch(&symbols(&["A", "B", "A"]), "2021-02-27", "2021-03-02").unwrap();
    assert_eq!(plan.len(), 4 * 3);
    let dates: Vec<String> = plan.iter().step_by(3).map(|r| r.date.clone()).collect();
    assert_eq!(dates, vec!["20210227", "20210228", "20210301", "20210302"]);
    let syms: Vec<String> = plan.iter().take(3).map(|r| r.symbol.clone()).collect();
    assert_eq!(syms, vec!["A", "B", "A"]);
}

#[test]
fn leap_day_and_year_end_are_walked() {
    let plan = plan_batch(&symbols(&["X"]), "2020-02-28", "2020-03-01").unwrap();
    let dates: Vec<String> = plan.iter().map(|r| r.date.clone()).collect();
    assert_eq!(dates, vec!["20200228", "20200229", "20200301"]);
    let plan = plan_batch(&symbols(&["X"]), "2020-12-31", "2021-01-01").unwrap();
    let dates: Vec<String> = plan.iter().map(|r| r.date.clone()).collect();
    assert_eq!(dates, vec!["20201231", "20210101"]);
}

#[test]
fn single_request_formats_the_date() {
    let q = historical_request(&"AAPL".to_string(), "2021-05-21").unwrap();
    assert_eq!(q.symbol, "AAPL");
    assert_eq!(q.date, "20210521");
    assert!(historical_request(&"AAPL".to_string(), "20210521").is_none());
}

#[test]
fn one_symbol_batch_matches_single_requests() {
    let plan = plan_batch(&symbols(&["AAPL"]), "2021-01-04", "2021-01-05").unwrap();
    assert_eq!(plan.len(), 2);
    for (r, day) in plan.iter().zip(["2021-01-04", "2021-01-05"]) {
        let single = historical_request(&"AAPL".to_string(), day).unwrap();
        assert_eq!(r.symbol, single.symbol);
        assert_eq!(r.date, single.date);
    }
}

#[test]
fn run_fetches_and_stores_in_order() {
    let mut run = BatchRun::new(&symbols(&["AAPL", "MSFT"]), "2021-01-04", "2021-01-05").unwrap();
    let mut calls: Vec<String> = Vec::new();
    let mut n: usize = 0;
    while let Some(req) = run.next_request() {
        let (sym, date) = (req.symbol.clone(), req.date.clone());
        calls.push(format!("fetch {} {}", sym, date));
        let items = vec![price("2021-01-04", "09:30", n)];
        let rows = run.on_fetched(Ok(items)).unwrap();
        assert_eq!(rows.len(), 1);
        assert_eq!(rows[0].ticker, sym);
        calls.push(format!("store {}", sym));
        run.on_stored(Ok(())).unwrap();
        n += 1;
    }
    assert_eq!(
        calls,
        vec![
            "fetch AAPL 20210104",
            "store AAPL",
            "fetch MSFT 20210104",
            "store MSFT",
            "fetch AAPL 20210105",
            "store AAPL",
            "fetch MSFT 20210105",
            "store MSFT",
        ]
    );
    let results = run.into_results();
    assert_eq!(results.len(), 4);
    let trades: Vec<usize> = results.iter().map(|v| v[0].number_of_trades).collect();
    assert_eq!(trades, vec![0, 1, 2, 3]);
}

#[test]
fn failed_fetch_ends_the_run() {
    let mut run = BatchRun::new(&symbols(&["AAPL"]), "2021-01-04", "2021-01-05").unwrap();
    assert!(run.next_request().is_some());
    let r = run.on_fetched(Err("timeout".to_string()));
    assert!(matches!(r, Err(BatchError::RemoteFetch(m)) if m == "timeout"));
}

#[test]
fn malformed_minute_ends_the_run() {
    let mut run = BatchRun::new(&symbols(&["AAPL"]), "2021-01-04", "2021-01-05").unwrap();
    let r = run.on_fetched(Ok(vec![price("2021-01-04", "09:30", 1), price("2021-01-04", "9:3", 1)]));
    assert!(matches!(r, Err(BatchError::Parse)));
}

#[test]
fn failed_store_ends_the_run() {
    let mut run = BatchRun::new(&symbols(&["AAPL"]), "2021-01-04", "2021-01-05").unwrap();
    run.on_fetched(Ok(vec![])).unwrap();
    let r = run.on_stored(Err("connection refused".to_string()));
    assert!(matches!(r, Err(BatchError::Storage(m)) if m == "connection refused"));
}
