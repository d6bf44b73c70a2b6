use orpheus_buddy::json::{Json, JsonNumber};
use orpheus_buddy::party::{
    check_party_time, coding_seconds, parse_time_text_to_seconds, party_check_impossible,
    record_coding_time, time_text_seconds_checked, Party, PartyState, TodayReport,
};

fn text(s: &str) -> Json {
    Json::Text(s.to_string())
}

fn number(n: u64) -> Json {
    Json::Number(JsonNumber { literal: n.to_string(), as_u64: Some(n), as_u32_lossy: n.min(u32::MAX as u64) as u32 })
}

fn float(lit: &str, lossy: u32) -> Json {
    Json::Number(JsonNumber { literal: lit.to_string(), as_u64: None, as_u32_lossy: lossy })
}

fn object(entries: Vec<(&str, Json)>) -> Json {
    Json::Object(entries.into_iter().map(|(k, v)| (k.to_string(), v)).collect())
}

#[test]
fn parses_hours_minutes_seconds() {
    assert_eq!(parse_time_text_to_seconds("1h 2m 3s"), 3723);
    assert_eq!(parse_time_text_to_seconds("45m"), 2700);
    assert_eq!(parse_time_text_to_seconds("2h"), 7200);
    assert_eq!(parse_time_text_to_seconds(" 10s "), 10);
}

#[test]
fn parts_that_are_not_numbers_count_as_zero() {
    // "1 hr 2 mins": the minutes are read from "r 2 ", the seconds from "in".
    assert_eq!(parse_time_text_to_seconds("1 hr 2 mins"), 3600);
    assert_eq!(parse_time_text_to_seconds(""), 0);
    assert_eq!(parse_time_text_to_seconds("no time"), 0);
    assert_eq!(parse_time_text_to_seconds("+5s"), 5);
    assert_eq!(parse_time_text_to_seconds("-5s"), 0);
    assert_eq!(parse_time_text_to_seconds("xh"), 0);
}

#[test]
fn unreadable_time_texts_are_refused() {
    // the minutes would end before they begin
    assert_eq!(time_text_seconds_checked("2m 1h"), None);
    // the seconds would end before they begin
    assert_eq!(time_text_seconds_checked("5s 1m"), None);
    // the total does not fit in 32 bits
    assert_eq!(time_text_seconds_checked("4294967295h"), None);
    assert_eq!(time_text_seconds_checked("1193046h 28m 15s"), Some(4294967295));
    assert_eq!(time_text_seconds_checked("1193046h 28m 16s"), None);
}

#[test]
fn coding_seconds_prefers_total_seconds() {
    let report = object(vec![
        ("total_seconds", number(3723)),
        ("text", text("5h")),
    ]);
    assert_eq!(coding_seconds(&report), Some(3723));
    // a total that is not an integer counts as 0
    let report = object(vec![("total_seconds", float("12.5", 12))]);
    assert_eq!(coding_seconds(&report), Some(0));
    // an integer total is cut to 32 bits
    let report = object(vec![("total_seconds", number(4294967296 + 5))]);
    assert_eq!(coding_seconds(&report), Some(5));
}

#[test]
fn coding_seconds_reads_grand_total_then_text() {
    let report = object(vec![(
        "data",
        object(vec![("grand_total", object(vec![("total_seconds", float("1234.9", 1234))]))]),
    )]);
    assert_eq!(coding_seconds(&report), Some(1234));
    let report = object(vec![("data", object(vec![]))]);
    assert_eq!(coding_seconds(&report), Some(0));
    let report = object(vec![("data", object(vec![("grand_total", object(vec![("total_seconds", text("9"))]))]))]);
    assert_eq!(coding_seconds(&report), Some(0));
    let report = object(vec![("text", text("1h 30m"))]);
    assert_eq!(coding_seconds(&report), Some(5400));
    let report = object(vec![("text", number(7))]);
    assert_eq!(coding_seconds(&report), Some(0));
    let report = object(vec![("other", number(7))]);
    assert_eq!(coding_seconds(&report), Some(0));
    assert_eq!(coding_seconds(&Json::Null), Some(0));
    let report = object(vec![("text", text("2m 1h"))]);
    assert_eq!(coding_seconds(&report), None);
    assert!(party_check_impossible(&TodayReport::Report(object(vec![("text", text("2m 1h"))]))));
    assert!(!party_check_impossible(&TodayReport::Report(object(vec![("text", text("1h"))]))));
}

#[test]
fn one_party_per_ten_minutes() {
    let mut state = PartyState::new();
    assert_eq!(record_coding_time(&mut state, 599), None);
    assert_eq!(
        record_coding_time(&mut state, 600),
        Some(Party { minutes_coded: 10, intervals_completed: 1 })
    );
    assert_eq!(state.last_party_threshold, 600);
    assert_eq!(state.last_known_seconds, 600);
    // the same interval, and the same time again: no second party
    assert_eq!(record_coding_time(&mut state, 1199), None);
    assert_eq!(record_coding_time(&mut state, 1199), None);
    assert_eq!(
        record_coding_time(&mut state, 1250),
        Some(Party { minutes_coded: 20, intervals_completed: 2 })
    );
    assert_eq!(state.last_party_threshold, 1200);
}

#[test]
fn a_smaller_time_waits_for_the_next_interval() {
    let mut state = PartyState::new();
    assert!(record_coding_time(&mut state, 1300).is_some());
    assert_eq!(record_coding_time(&mut state, 100), None);
    assert_eq!(state.last_known_seconds, 100);
    assert_eq!(state.last_party_threshold, 1200);
    assert_eq!(record_coding_time(&mut state, 1350), None);
    assert_eq!(
        record_coding_time(&mut state, 1800),
        Some(Party { minutes_coded: 30, intervals_completed: 3 })
    );
}

#[test]
fn check_party_time_reports_errors_and_parties() {
    let mut state = PartyState::new();
    assert_eq!(check_party_time(&mut state, TodayReport::Unavailable("no cli".to_string())), Err("no cli".to_string()));
    assert_eq!(
        check_party_time(&mut state, TodayReport::Malformed("expected value".to_string())),
        Err("Failed to parse WakaTime data: expected value".to_string())
    );
    assert_eq!(state.last_known_seconds, 0);
    let report = object(vec![("total_seconds", number(3723))]);
    assert_eq!(
        check_party_time(&mut state, TodayReport::Report(report)),
        Ok(Some(Party { minutes_coded: 62, intervals_completed: 6 }))
    );
    let report = object(vec![("total_seconds", number(3723))]);
    assert_eq!(check_party_time(&mut state, TodayReport::Report(report)), Ok(None));
}

#[test]
fn written_times_read_back_as_their_total() {
    for (h, m, s) in [(0u32, 0u32, 0u32), (1, 2, 3), (12, 59, 59), (0, 120, 7), (1193046, 28, 15)] {
        let t = format!("{}h {}m {}s", h, m, s);
        let total = h as u64 * 3600 + m as u64 * 60 + s as u64;
        assert_eq!(parse_time_text_to_seconds(&t) as u64, total);
        assert_eq!(time_text_seconds_checked(&t), Some(total as u32));
    }
    assert_eq!(parse_time_text_to_seconds(&format!("{}h", 7)), 7 * 3600);
    assert_eq!(parse_time_text_to_seconds(&format!("{}m", 45)), 45 * 60);
}
