use sync_store::log_query::{
    is_overflow_error, LogAction, LogEvent, LogFilter, LogQuery, LogQueryError,
};

fn fetched(a: LogAction<u64, String>) -> Option<(u64, u64)> {
    match a {
        LogAction::FetchLogs(range) => range,
        _ => panic!("expected a page request"),
    }
}

fn emitted(a: LogAction<u64, String>) -> u64 {
    match a {
        LogAction::Emit(v) => v,
        _ => panic!("expected a log"),
    }
}

#[test]
fn overflow_messages_are_recognised() {
    assert!(is_overflow_error("query exceeds the max limit of 10000 logs"));
    assert!(is_overflow_error("response too large with more than 5000 results"));
    assert!(!is_overflow_error("connection reset"));
    assert!(!is_overflow_error(""));
    assert!(!is_overflow_error("exceeds the max limit"));
}

#[test]
fn overflow_halves_the_page_and_restores_it() {
    let filter = LogFilter { from_block: Some(0), to_block: Some(999) };
    let mut q: LogQuery<u64> = LogQuery::new(filter).with_page_size(1000);
    let a = q.poll_next::<String>(LogEvent::Poll);
    assert_eq!(fetched(a), Some((0, 999)));
    let a = q.poll_next(LogEvent::LogsFailed(
        "boom".to_string(),
        "query exceeds the max limit of 10000".to_string(),
    ));
    assert_eq!(fetched(a), Some((0, 499)));
    let a = q.poll_next::<String>(LogEvent::Logs(vec![1, 2]));
    assert_eq!(emitted(a), 1);
    assert_eq!(emitted(q.poll_next::<String>(LogEvent::Poll)), 2);
    let a = q.poll_next::<String>(LogEvent::Poll);
    assert_eq!(fetched(a), Some((500, 999)));
    let a = q.poll_next::<String>(LogEvent::Logs(vec![3]));
    assert_eq!(emitted(a), 3);
    assert!(matches!(q.poll_next::<String>(LogEvent::Poll), LogAction::End));
    assert!(matches!(q.poll_next::<String>(LogEvent::Poll), LogAction::End));
}

#[test]
fn non_paginatable_filter_loads_once() {
    let filter = LogFilter { from_block: None, to_block: None };
    let mut q: LogQuery<u64> = LogQuery::new(filter);
    assert_eq!(fetched(q.poll_next::<String>(LogEvent::Poll)), None);
    assert_eq!(emitted(q.poll_next::<String>(LogEvent::Logs(vec![7, 8]))), 7);
    assert_eq!(emitted(q.poll_next::<String>(LogEvent::Poll)), 8);
    assert!(matches!(q.poll_next::<String>(LogEvent::Poll), LogAction::End));
}

#[test]
fn open_range_loads_the_latest_block_first() {
    let filter = LogFilter { from_block: Some(10), to_block: None };
    let mut q: LogQuery<u64> = LogQuery::new(filter).with_page_size(5);
    assert!(matches!(q.poll_next::<String>(LogEvent::Poll), LogAction::FetchLastBlock));
    assert_eq!(fetched(q.poll_next::<String>(LogEvent::LastBlock(17))), Some((10, 14)));
    assert_eq!(fetched(q.poll_next::<String>(LogEvent::Logs(vec![]))), Some((15, 17)));
    assert!(matches!(q.poll_next::<String>(LogEvent::Logs(vec![])), LogAction::End));
}

#[test]
fn errors_end_the_query() {
    let filter = LogFilter { from_block: Some(0), to_block: None };
    let mut q: LogQuery<u64> = LogQuery::new(filter);
    assert!(matches!(q.poll_next::<String>(LogEvent::Poll), LogAction::FetchLastBlock));
    match q.poll_next(LogEvent::LastBlockFailed("down".to_string())) {
        LogAction::Fail(LogQueryError::LoadLastBlockError(e)) => assert_eq!(e, "down"),
        _ => panic!("expected an error"),
    }
    assert!(matches!(q.poll_next::<String>(LogEvent::Poll), LogAction::End));

    let filter = LogFilter { from_block: Some(0), to_block: Some(9) };
    let mut q: LogQuery<u64> = LogQuery::new(filter);
    assert_eq!(fetched(q.poll_next::<String>(LogEvent::Poll)), Some((0, 9)));
    match q.poll_next(LogEvent::LogsFailed("e".to_string(), "connection reset".to_string())) {
        LogAction::Fail(LogQueryError::LoadLogsError(e)) => assert_eq!(e, "e"),
        _ => panic!("expected an error"),
    }
    assert!(matches!(q.poll_next::<String>(LogEvent::Logs(vec![1])), LogAction::End));
}

#[test]
fn out_of_place_events_are_ignored() {
    let filter = LogFilter { from_block: Some(0), to_block: Some(9) };
    let mut q: LogQuery<u64> = LogQuery::new(filter);
    assert!(matches!(q.poll_next::<String>(LogEvent::LastBlock(3)), LogAction::Ignored));
    assert!(matches!(q.poll_next::<String>(LogEvent::Logs(vec![1])), LogAction::Ignored));
    assert_eq!(fetched(q.poll_next::<String>(LogEvent::Poll)), Some((0, 9)));
}

#[test]
fn page_size_never_drops_below_one() {
    let filter = LogFilter { from_block: Some(4), to_block: Some(4) };
    let mut q: LogQuery<u64> = LogQuery::new(filter).with_page_size(1);
    assert_eq!(fetched(q.poll_next::<String>(LogEvent::Poll)), Some((4, 4)));
    let msg = "too large with more than 1 result".to_string();
    let a = q.poll_next(LogEvent::LogsFailed("x".to_string(), msg));
    assert_eq!(fetched(a), Some((4, 4)));
}

#[test]
fn range_ending_at_the_largest_block() {
    let filter = LogFilter { from_block: Some(u64::MAX - 1), to_block: Some(u64::MAX) };
    let mut q: LogQuery<u64> = LogQuery::new(filter);
    assert_eq!(fetched(q.poll_next::<String>(LogEvent::Poll)), Some((u64::MAX - 1, u64::MAX)));
    assert!(matches!(q.poll_next::<String>(LogEvent::Logs(vec![])), LogAction::End));
}

#[test]
fn pages_cover_the_range_and_logs_come_in_order() {
    // every block b holds one log, numbered b
    let filter = LogFilter { from_block: Some(0), to_block: Some(24) };
    let mut q: LogQuery<u64> = LogQuery::new(filter).with_page_size(10);
    let mut pages = Vec::new();
    let mut out = Vec::new();
    let mut action = q.poll_next::<String>(LogEvent::Poll);
    loop {
        action = match action {
            LogAction::FetchLogs(Some((from, to))) => {
                pages.push((from, to));
                q.poll_next(LogEvent::Logs((from..=to).collect()))
            }
            LogAction::Emit(v) => {
                out.push(v);
                q.poll_next(LogEvent::Poll)
            }
            LogAction::End => break,
            _ => panic!("unexpected action"),
        };
    }
    assert_eq!(pages, vec![(0, 9), (10, 19), (20, 24)]);
    assert_eq!(out, (0..=24).collect::<Vec<u64>>());
}
