use bestof::clock::parse_window;
use bestof::record::MessageData;
use bestof::robot::RobotQuotes;
use bestof::scan::channels_to_scan;
use bestof::scan::is_denylisted;
use bestof::scan::ScanState;
use bestof::scan::GUILD_ID;
use bestof::scan::MESSAGES_TO_CHECK;
use bestof::sched::next_phase;
use bestof::sched::seconds_until_daily_post;
use bestof::sched::startup_jitter_secs;
use bestof::sched::LoopEvent;
use bestof::sched::LoopPhase;
use bestof::sched::FLUSH_INTERVAL_SECS;
use bestof::sched::RESCAN_INTERVAL_SECS;

fn message(id: i64, timestamp: i64) -> MessageData {
    MessageData {
        id,
        author: "someone".to_string(),
        author_is_bot: false,
        content: "hello".to_string(),
        link: format!("https://example.invalid/{}", id),
        channel: "general".to_string(),
        reaction_counts: vec![6],
        timestamp,
        image: None,
    }
}

#[test]
fn empty_batch_stops_the_scan() {
    let mut scan = ScanState::new();
    scan.step(vec![], Some(100));
    assert!(scan.done);
    assert!(scan.collected.is_empty());
    assert!(scan.cursor.is_none());
}

#[test]
fn poll_mode_examines_one_batch_only() {
    let mut scan = ScanState::new();
    scan.step(vec![message(30, 300), message(20, 200)], None);
    assert!(scan.done);
    assert_eq!(scan.collected.len(), 2);
    assert_eq!(scan.cursor, Some(20));
}

#[test]
fn window_keeps_paginating_until_passed() {
    let mut scan = ScanState::new();
    // newest first: the oldest of this batch is still inside the window
    scan.step(vec![message(30, 300), message(20, 200)], Some(150));
    assert!(!scan.done);
    assert_eq!(scan.cursor, Some(20));

    // the next batch reaches past the window's lower bound
    scan.step(vec![message(10, 100)], Some(150));
    assert!(scan.done);
    assert_eq!(scan.collected.len(), 3);
    assert_eq!(scan.cursor, Some(10));
}

#[test]
fn denylist_excludes_exactly_the_meta_channels() {
    let denied = [
        742849340418293913u64,
        563103686612746250,
        563220076707315754,
        871756996452438086,
        748004690418991117,
    ];
    for id in denied {
        assert!(is_denylisted(id));
    }
    assert!(!is_denylisted(GUILD_ID));
    assert!(!is_denylisted(1));

    let all = vec![1u64, denied[0], 2, denied[4], 3];
    assert_eq!(channels_to_scan(&all), vec![1, 2, 3]);
}

#[test]
fn scan_batch_size_and_intervals_are_fixed() {
    assert_eq!(MESSAGES_TO_CHECK, 100);
    assert_eq!(RESCAN_INTERVAL_SECS, 600);
    assert_eq!(FLUSH_INTERVAL_SECS, 3610);
}

#[test]
fn daily_post_sleeps_until_fifteen_hundred_utc() {
    // midnight: fifteen hours to go
    assert_eq!(seconds_until_daily_post(0), 54_000);
    // exactly 15:00: a full day to go
    assert_eq!(seconds_until_daily_post(54_000), 86_400);
    // one second past 15:00
    assert_eq!(seconds_until_daily_post(54_001), 86_399);
    // an arbitrary instant lands on the target second of the day
    let now = 1_700_000_123;
    let r = seconds_until_daily_post(now);
    assert!(0 < r && r <= 86_400);
    assert_eq!((now + r as i64) % 86_400, 54_000);
}

#[test]
fn startup_jitter_is_a_few_seconds() {
    for _ in 0..20 {
        assert!(startup_jitter_secs() < 10);
    }
}

#[test]
fn loop_phases_cycle_and_ignore_stray_events() {
    let p = LoopPhase::Idle;
    let p = next_phase(&p, &LoopEvent::Start);
    assert_eq!(p, LoopPhase::Running);
    let ok = next_phase(&p, &LoopEvent::Finished(true));
    assert_eq!(ok, LoopPhase::Succeeded);
    let failed = next_phase(&p, &LoopEvent::Finished(false));
    assert_eq!(failed, LoopPhase::Failed);
    let p = next_phase(&ok, &LoopEvent::Sleep);
    assert_eq!(p, LoopPhase::Sleeping);
    assert_eq!(next_phase(&failed, &LoopEvent::Sleep), LoopPhase::Sleeping);
    let p = next_phase(&p, &LoopEvent::Wake);
    assert_eq!(p, LoopPhase::Idle);
    // a stray event leaves the phase unchanged
    assert_eq!(next_phase(&LoopPhase::Idle, &LoopEvent::Sleep), LoopPhase::Idle);
    assert_eq!(next_phase(&LoopPhase::Running, &LoopEvent::Wake), LoopPhase::Running);
}

#[test]
fn window_argument_parses_zero_and_dates() {
    assert_eq!(parse_window(&"0".to_string()), Ok(None));
    assert_eq!(
        parse_window(&"2024-01-01T00:00:00Z".to_string()),
        Ok(Some(1_704_067_200)),
    );
    assert!(parse_window(&"yesterday".to_string()).is_err());
}

#[test]
fn robot_quotes_sample_installed_lines() {
    let mut quotes = RobotQuotes::new();
    assert!(quotes.needs_loading());
    assert_eq!(quotes.get_quote(), None);

    quotes.install_lines(vec!["one".to_string(), "two".to_string()]);
    assert!(!quotes.needs_loading());
    for _ in 0..10 {
        let line = quotes.get_quote().expect("lines are installed");
        assert!(line == "one" || line == "two");
    }

    let mut empty = RobotQuotes::new();
    empty.install_lines(vec![]);
    assert_eq!(empty.get_quote(), None);
}

#[test]
fn stored_rows_copy_exactly() {
    let q = bestof::quotes::QuoteMessage {
        id: 4,
        quote: "beep".to_string(),
        author: "boop".to_string(),
    };
    assert_eq!(q.duplicate(), q);
    let f = bestof::requests::FeatureRequest {
        id: 2,
        request: "more tests".to_string(),
        user: "1234".to_string(),
        votes: 3,
    };
    assert_eq!(f.duplicate(), f);
}
