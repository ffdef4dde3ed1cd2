use price_tracker::error::PriceError;
use price_tracker::instrument::Instrument;
use price_tracker::log::PriceLog;
use price_tracker::log::header_line;
use price_tracker::log::record_line;
use price_tracker::price::Price;
use price_tracker::timestamp::Timestamp;
use price_tracker::tracker::Phase;
use price_tracker::tracker::Tracker;
use price_tracker::tracker::status_line;

fn ts(year: i32, month: u32, day: u32, hour: u32, minute: u32, second: u32) -> Timestamp {
    Timestamp::from_clock(year, month, day, hour, minute, second).unwrap()
}

/// Whether `s` matches `^\d{4}-\d{2}-\d{2} \d{2}:\d{2}:\d{2},\d+\.\d{2}$`.
fn matches_record_pattern(s: &str) -> bool {
    let b: Vec<char> = s.chars().collect();
    if b.len() < 24 {
        return false;
    }
    let d = |i: usize| b[i].is_ascii_digit();
    d(0) && d(1) && d(2) && d(3) && b[4] == '-' && d(5) && d(6) && b[7] == '-' && d(8) && d(9)
        && b[10] == ' ' && d(11) && d(12) && b[13] == ':' && d(14) && d(15) && b[16] == ':'
        && d(17) && d(18) && b[19] == ','
        && b[20..b.len() - 3].iter().all(|c| c.is_ascii_digit())
        && b[b.len() - 3] == '.' && d(b.len() - 2) && d(b.len() - 1)
}

#[test]
fn timestamp_formats_zero_padded() {
    let t = ts(2024, 1, 2, 3, 4, 5);
    assert_eq!(t.format(), "2024-01-02 03:04:05");
    let t = ts(999, 12, 31, 23, 59, 59);
    assert_eq!(t.format(), "0999-12-31 23:59:59");
}

#[test]
fn timestamp_rejects_out_of_range_fields() {
    assert!(Timestamp::from_clock(2024, 13, 1, 0, 0, 0).is_none());
    assert!(Timestamp::from_clock(2024, 0, 1, 0, 0, 0).is_none());
    assert!(Timestamp::from_clock(2024, 1, 32, 0, 0, 0).is_none());
    assert!(Timestamp::from_clock(2024, 1, 1, 24, 0, 0).is_none());
    assert!(Timestamp::from_clock(2024, 1, 1, 0, 60, 0).is_none());
    assert!(Timestamp::from_clock(2024, 1, 1, 0, 0, 60).is_none());
    assert!(Timestamp::from_clock(10000, 1, 1, 0, 0, 0).is_none());
    assert!(Timestamp::from_clock(-1, 1, 1, 0, 0, 0).is_none());
    assert!(Timestamp::from_clock(2024, 2, 29, 12, 30, 45).is_some());
}

#[test]
fn clock_reading_is_well_formed() {
    let t = Timestamp::now().expect("the clock year has four digits");
    let text = t.format();
    assert_eq!(text.chars().count(), 19);
    let line = record_line(&t, Price { cents: 100 });
    assert!(matches_record_pattern(&line));
}

#[test]
fn header_is_fixed() {
    assert_eq!(header_line(), "timestamp,price");
}

#[test]
fn record_line_is_timestamp_comma_price() {
    let line = record_line(&ts(2024, 1, 2, 3, 4, 5), Price { cents: 4325070 });
    assert_eq!(line, "2024-01-02 03:04:05,43250.70");
    assert!(matches_record_pattern(&line));
}

#[test]
fn initialization_creates_header_once() {
    let mut log = PriceLog::new();
    assert_eq!(log.line_count(), 0);
    log.ensure_initialized();
    assert_eq!(log.line_count(), 1);
    assert_eq!(log.line_at(0), "timestamp,price");
    // a second initialization must not duplicate the header
    log.ensure_initialized();
    assert_eq!(log.line_count(), 1);
}

#[test]
fn initialization_leaves_populated_log_untouched() {
    let lines = vec![
        "timestamp,price".to_string(),
        "2024-01-02 03:04:05,1.00".to_string(),
        "2024-01-02 03:04:15,2.00".to_string(),
    ];
    let mut log = PriceLog::from_lines(lines.clone());
    log.ensure_initialized();
    assert_eq!(log.line_count(), 3);
    for (i, l) in lines.iter().enumerate() {
        assert_eq!(log.line_at(i), l);
    }
}

#[test]
fn appends_grow_log_by_one_line_each() {
    let mut log = PriceLog::new();
    log.ensure_initialized();
    let n = 5u64;
    for k in 0..n {
        log.append_record(&ts(2024, 1, 2, 3, 4, 5 + k as u32), Price { cents: 100 + k });
    }
    // one header plus one line per successful cycle
    assert_eq!(log.line_count() as u64, n + 1);
    assert_eq!(log.line_at(0), "timestamp,price");
    for k in 1..=n {
        assert!(matches_record_pattern(log.line_at(k as usize)));
    }
}

#[test]
fn tracker_starts_initializing_with_three_instruments() {
    let tracker = Tracker::new();
    assert_eq!(tracker.phase, Phase::Initializing);
    assert_eq!(tracker.instrument_count(), 3);
    assert_eq!(tracker.instrument_at(0), Instrument::Bitcoin);
    assert_eq!(tracker.instrument_at(1), Instrument::Ethereum);
    assert_eq!(tracker.instrument_at(2), Instrument::SP500);
    assert_eq!(tracker.log_at(0).line_count(), 0);
}

#[test]
fn tracker_initialize_creates_every_log() {
    let mut tracker = Tracker::new();
    tracker.initialize();
    assert_eq!(tracker.phase, Phase::Polling);
    for i in 0..tracker.instrument_count() {
        assert_eq!(tracker.log_at(i).line_count(), 1);
        assert_eq!(tracker.log_at(i).line_at(0), "timestamp,price");
    }
}

#[test]
fn failed_fetch_leaves_other_instruments_untouched() {
    let mut tracker = Tracker::new();
    tracker.initialize();
    let t = ts(2024, 1, 2, 3, 4, 5);
    let outcomes: Vec<Result<Price, PriceError>> = vec![
        Ok(Price { cents: 4325070 }),
        Err(PriceError::NetworkError("connection refused".to_string())),
        Ok(Price { cents: 512345 }),
    ];
    let lines = tracker.apply_cycle(&t, &outcomes);
    assert_eq!(lines.len(), 3);
    assert_eq!(lines[0].as_deref(), Some("2024-01-02 03:04:05,43250.70"));
    assert!(lines[1].is_none());
    assert_eq!(lines[2].as_deref(), Some("2024-01-02 03:04:05,5123.45"));
    assert_eq!(tracker.log_at(0).line_count(), 2);
    assert_eq!(tracker.log_at(1).line_count(), 1);
    assert_eq!(tracker.log_at(2).line_count(), 2);
    assert_eq!(tracker.log_at(0).line_at(1), "2024-01-02 03:04:05,43250.70");
}

#[test]
fn parse_failure_leaves_log_untouched_for_that_cycle() {
    let mut tracker = Tracker::new();
    tracker.initialize();
    let t = ts(2024, 1, 2, 3, 4, 5);
    // a malformed crypto payload: the nested usd key is missing
    let body = "{\"bitcoin\":{}}";
    let outcome = Instrument::Bitcoin.price_from_response(body);
    assert!(matches!(outcome, Err(PriceError::ParseError(_))));
    let outcomes: Vec<Result<Price, PriceError>> = vec![
        outcome,
        Ok(Price { cents: 200000 }),
        Err(PriceError::NetworkError("timed out".to_string())),
    ];
    tracker.apply_cycle(&t, &outcomes);
    assert_eq!(tracker.log_at(0).line_count(), 1);
    assert_eq!(tracker.log_at(0).line_at(0), "timestamp,price");
    assert_eq!(tracker.log_at(1).line_count(), 2);
}

#[test]
fn record_success_touches_only_its_own_log() {
    let mut tracker = Tracker::new();
    tracker.initialize();
    let t = ts(2024, 6, 7, 8, 9, 10);
    let line = tracker.record_success(1, &t, Price { cents: 199999 });
    assert_eq!(line, "2024-06-07 08:09:10,1999.99");
    assert_eq!(tracker.log_at(0).line_count(), 1);
    assert_eq!(tracker.log_at(1).line_count(), 2);
    assert_eq!(tracker.log_at(1).line_at(1), &line);
    assert_eq!(tracker.log_at(2).line_count(), 1);
}

#[test]
fn status_line_shape() {
    let t = ts(2024, 1, 2, 3, 4, 5);
    let line = status_line(&Instrument::Bitcoin, &t, Price { cents: 4325070 });
    assert_eq!(line, "[2024-01-02 03:04:05] Bitcoin: $43250.70");
}

#[test]
fn consecutive_cycle_records_carry_their_cycle_timestamps() {
    // two successful cycles for one instrument, ten seconds apart
    let mut tracker = Tracker::new();
    tracker.initialize();
    let first = ts(2024, 1, 2, 3, 4, 5);
    let second = ts(2024, 1, 2, 3, 4, 15);
    let outcomes: Vec<Result<Price, PriceError>> = vec![
        Ok(Price { cents: 100 }),
        Ok(Price { cents: 200 }),
        Ok(Price { cents: 300 }),
    ];
    let later: Vec<Result<Price, PriceError>> = vec![
        Ok(Price { cents: 110 }),
        Ok(Price { cents: 210 }),
        Ok(Price { cents: 310 }),
    ];
    tracker.apply_cycle(&first, &outcomes);
    tracker.apply_cycle(&second, &later);
    assert_eq!(tracker.log_at(0).line_count(), 3);
    assert_eq!(tracker.log_at(0).line_at(1), "2024-01-02 03:04:05,1.00");
    assert_eq!(tracker.log_at(0).line_at(2), "2024-01-02 03:04:15,1.10");
}
