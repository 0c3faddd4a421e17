use harvest::calendar::Day;
use harvest::fetcher::{
    scan_page, should_skip, FetchState, PageRequest, PageScan, Step, StopReason,
    EMPTY_PAGE_LIMIT, PAGE_CAP,
};
use harvest::stats::Statistics;

fn record(path: &str, stamp: &str) -> String {
    format!("{{\"Path\":\"{}\",\"Version\":\"v1.0.0\",\"Timestamp\":\"{}\"}}\n", path, stamp)
}

fn page(stamps: &[&str]) -> String {
    stamps.iter().map(|s| record("example.com/m", s)).collect()
}

fn scan(valid: usize, cursor: &str) -> PageScan {
    PageScan { accepted: String::new(), valid, errors: 0, cursor: cursor.to_string() }
}

fn fresh() -> (FetchState, Day, Statistics) {
    let day = Day::parse("2019-04-10").unwrap();
    (FetchState::start(day), day, Statistics::new(1))
}

#[test]
fn a_fetch_starts_at_the_start_of_the_day() {
    let (state, _, _) = fresh();
    assert_eq!(
        state,
        FetchState {
            since: "2019-04-10T00:00:00Z".to_string(),
            previous: String::new(),
            pages: 0,
            empty_pages: 0
        }
    );
    assert_eq!(EMPTY_PAGE_LIMIT, 3);
    assert_eq!(PAGE_CAP, 1000);
}

#[test]
fn resume_skips_partitions_with_a_log_that_is_not_empty() {
    assert!(should_skip(true, Some(1)));
    assert!(should_skip(true, Some(u64::MAX)));
    assert!(!should_skip(true, Some(0)));
    assert!(!should_skip(true, None));
    assert!(!should_skip(false, Some(10)));
    assert!(!should_skip(false, None));
}

#[test]
fn scan_page_keeps_valid_records_and_counts_the_rest() {
    let body = "{\"Path\":\"a\",\"Timestamp\":\"2019-04-10T01:00:00Z\"}\n\n{\"Path\":\"c\"\n  \n{\"Path\":\"b\",\"Timestamp\":\"2019-04-10T02:00:00Z\"}\r\n";
    let scan = scan_page(body);
    assert_eq!(
        scan,
        PageScan {
            accepted: "{\"Path\":\"a\",\"Timestamp\":\"2019-04-10T01:00:00Z\"}\n{\"Path\":\"b\",\"Timestamp\":\"2019-04-10T02:00:00Z\"}\n".to_string(),
            valid: 2,
            errors: 1,
            cursor: "2019-04-10T02:00:00Z".to_string(),
        }
    );
}

#[test]
fn scan_page_takes_the_last_timestamp_that_is_a_string() {
    let body = "{\"Timestamp\":\"t1\"}\n{\"Timestamp\":17}\n{\"Path\":\"x\"}\n[1,2]\n\"text\"\n";
    let scan = scan_page(body);
    assert_eq!(scan.valid, 5);
    assert_eq!(scan.errors, 0);
    assert_eq!(scan.cursor, "t1");
    assert_eq!(scan.accepted, body);
}

#[test]
fn scan_page_of_nothing_is_empty() {
    assert_eq!(
        scan_page(""),
        PageScan { accepted: String::new(), valid: 0, errors: 0, cursor: String::new() }
    );
    let scan = scan_page("not json\nneither{\n");
    assert_eq!((scan.valid, scan.errors), (0, 2));
    assert_eq!(scan.accepted, "");
}

#[test]
fn pages_of_decreasing_size_stop_as_a_short_page() {
    let (mut state, day, mut stats) = fresh();
    let first = page(&["2019-04-10T01:00:00Z", "2019-04-10T02:00:00Z", "2019-04-10T03:00:00Z"]);
    let report = state.absorb(&first, 3, day, &mut stats);
    assert_eq!(report.step, Step::Pause);
    assert_eq!(report.valid, 3);
    assert_eq!(report.accepted, first);
    assert_eq!(state.since, "2019-04-10T03:00:00Z");
    assert_eq!(state.previous, "2019-04-10T00:00:00Z");
    assert_eq!(state.pages, 1);
    let second = page(&["2019-04-10T04:00:00Z", "2019-04-10T05:00:00Z"]);
    let report = state.absorb(&second, 3, day, &mut stats);
    assert_eq!(report.step, Step::Stop(StopReason::ShortPage));
    assert_eq!(report.valid, 2);
    assert_eq!(state.empty_pages, 0);
    assert_eq!(state.pages, 1);
    assert_eq!(stats.total_records, 5);
    assert_eq!(stats.total_errors, 0);
}

#[test]
fn a_repeated_cursor_stops_the_partition() {
    let (mut state, day, mut stats) = fresh();
    let stuck = page(&["2019-04-10T01:00:00Z", "2019-04-10T01:00:00Z"]);
    assert_eq!(state.absorb(&stuck, 2, day, &mut stats).step, Step::Pause);
    assert_eq!(state.absorb(&stuck, 2, day, &mut stats).step, Step::Pause);
    assert_eq!(state.since, "2019-04-10T01:00:00Z");
    assert_eq!(state.previous, "2019-04-10T01:00:00Z");
    assert_eq!(
        state.absorb(&stuck, 2, day, &mut stats).step,
        Step::Stop(StopReason::NoProgress)
    );
    assert_eq!(state.pages, 2);
}

#[test]
fn a_cursor_equal_to_the_previous_one_stops_at_once() {
    let (mut state, _, _) = fresh();
    state.previous = "2019-04-10T07:00:00Z".to_string();
    let step = state.advance(false, &scan(5, "2019-04-10T07:00:00Z"), 5, "2019-04-10");
    assert_eq!(step, Step::Stop(StopReason::NoProgress));
    assert_eq!(state.pages, 0);
    assert_eq!(state.since, "2019-04-10T00:00:00Z");
}

#[test]
fn a_page_without_a_cursor_stops_the_partition() {
    let (mut state, _, _) = fresh();
    let step = state.advance(false, &scan(5, ""), 5, "2019-04-10");
    assert_eq!(step, Step::Stop(StopReason::NoProgress));
}

#[test]
fn three_blank_pages_in_a_row_stop_the_partition() {
    let (mut state, day, mut stats) = fresh();
    assert_eq!(state.absorb("", 10, day, &mut stats).step, Step::Again);
    assert_eq!(state.absorb("  \n", 10, day, &mut stats).step, Step::Again);
    let report = state.absorb("\n\n", 10, day, &mut stats);
    assert_eq!(report.step, Step::Stop(StopReason::EmptyPages));
    assert_eq!((report.valid, report.errors), (0, 0));
    assert_eq!(report.accepted, "");
    assert_eq!(state.empty_pages, 3);
    assert_eq!(stats, Statistics::new(1));
}

#[test]
fn a_full_page_resets_the_count_of_blank_pages() {
    let (mut state, day, mut stats) = fresh();
    assert_eq!(state.absorb("", 1, day, &mut stats).step, Step::Again);
    assert_eq!(state.absorb("", 1, day, &mut stats).step, Step::Again);
    assert_eq!(state.empty_pages, 2);
    let full = page(&["2019-04-10T01:00:00Z"]);
    assert_eq!(state.absorb(&full, 1, day, &mut stats).step, Step::Pause);
    assert_eq!(state.empty_pages, 0);
    assert_eq!(state.absorb("", 1, day, &mut stats).step, Step::Again);
}

#[test]
fn a_page_without_valid_records_stops_the_partition() {
    let (mut state, day, mut stats) = fresh();
    let report = state.absorb("{\"Path\":\"c\"\nnonsense\n", 10, day, &mut stats);
    assert_eq!(report.step, Step::Stop(StopReason::NoValidRecords));
    assert_eq!((report.valid, report.errors), (0, 2));
    assert_eq!(stats.total_errors, 2);
    assert_eq!(stats.total_records, 0);
}

#[test]
fn a_cursor_in_the_next_day_stops_the_partition() {
    let (mut state, day, mut stats) = fresh();
    let body = page(&["2019-04-10T23:59:59Z", "2019-04-11T00:00:01Z"]);
    let report = state.absorb(&body, 2, day, &mut stats);
    assert_eq!(report.step, Step::Stop(StopReason::DayCrossed));
    assert_eq!(report.valid, 2);
    assert_eq!(report.accepted, body);
    assert_eq!(state.since, "2019-04-10T00:00:00Z");
}

#[test]
fn the_rules_apply_in_their_order() {
    let (mut state, _, _) = fresh();
    // no progress comes before the day and the size of the page
    assert_eq!(
        state.advance(false, &scan(1, ""), 5, "2019-04-10"),
        Step::Stop(StopReason::NoProgress)
    );
    // the day comes before the size of the page
    assert_eq!(
        state.advance(false, &scan(1, "2019-04-11T00:00:00Z"), 5, "2019-04-10"),
        Step::Stop(StopReason::DayCrossed)
    );
    // no valid record comes before everything else
    assert_eq!(
        state.advance(false, &scan(0, "2019-04-11T00:00:00Z"), 5, "2019-04-10"),
        Step::Stop(StopReason::NoValidRecords)
    );
    // a page with more records than asked for goes on
    assert_eq!(state.advance(false, &scan(6, "2019-04-10T05:00:00Z"), 5, "2019-04-10"), Step::Pause);
}

#[test]
fn the_cap_on_pages_stops_the_partition() {
    let (mut state, _, _) = fresh();
    let mut steps = 0usize;
    loop {
        let cursor = format!("2019-04-10T00:00:00.{:06}Z", steps + 1);
        let step = state.advance(false, &scan(2, &cursor), 2, "2019-04-10");
        steps += 1;
        match step {
            Step::Pause => assert!(steps <= 1000),
            other => {
                assert_eq!(other, Step::Stop(StopReason::PageCap));
                break;
            }
        }
    }
    assert_eq!(steps, 1001);
    assert_eq!(state.pages, 1001);
}

#[test]
fn requests_go_from_the_cursor_to_the_end_of_the_day() {
    let (mut state, day, mut stats) = fresh();
    assert_eq!(
        state.request(day, 2),
        PageRequest {
            since: "2019-04-10T00:00:00Z".to_string(),
            until: "2019-04-11T00:00:00Z".to_string(),
            limit: 2
        }
    );
    let full = page(&["2019-04-10T01:00:00Z", "2019-04-10T02:30:00Z"]);
    assert_eq!(state.absorb(&full, 2, day, &mut stats).step, Step::Pause);
    assert_eq!(
        state.request(day, 2),
        PageRequest {
            since: "2019-04-10T02:30:00Z".to_string(),
            until: "2019-04-11T00:00:00Z".to_string(),
            limit: 2
        }
    );
}
