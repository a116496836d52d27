use bestof::cache::BestOf;
use bestof::cache::BestOfError;
use bestof::query::cutoff_for;
use bestof::query::current_cutoff;
use bestof::query::matches_filter;
use bestof::query::TimeRange;
use bestof::query::TopFilter;
use bestof::record::BestOfMessage;

fn record(id: i64, author: &str, channel: &str, count: i64, timestamp: i64) -> BestOfMessage {
    BestOfMessage {
        id,
        author: author.to_string(),
        content: format!("message {}", id),
        link: format!("https://example.invalid/{}", id),
        channel: channel.to_string(),
        count,
        timestamp,
        image: None,
    }
}

fn no_filter() -> TopFilter {
    TopFilter { author: None, channel: None, since: None }
}

#[test]
fn random_pick_on_empty_cache_is_not_found() {
    let cache = BestOf::new();
    let picked = cache.get_random_bestof();
    assert_eq!(picked, Err(BestOfError::NoMessagesAvailable));
    assert_eq!(BestOfError::NoMessagesAvailable.message(), "No messages available");
    assert_eq!(BestOfError::RandomSourceFailed.message(), "Random source failed");
}

#[test]
fn random_pick_returns_a_cached_record() {
    let mut cache = BestOf::new();
    let batch = vec![
        record(1, "a", "general", 6, 100),
        record(2, "b", "general", 7, 200),
        record(3, "c", "general", 8, 300),
    ];
    cache.update_messages_for_channel(&batch);
    for _ in 0..20 {
        let picked = cache.get_random_bestof().expect("cache is not empty");
        let original = batch.iter().find(|r| r.id == picked.id).expect("picked id is cached");
        assert_eq!(&picked, original);
    }
}

#[test]
fn top_is_sorted_descending_and_bounded() {
    let mut cache = BestOf::new();
    cache.update_messages_for_channel(&vec![
        record(1, "a", "general", 5, 100),
        record(2, "b", "general", 9, 200),
        record(3, "c", "general", 7, 300),
    ]);
    let top = cache.get_top_reacted_messages(&no_filter(), 10);
    let counts: Vec<i64> = top.iter().map(|r| r.count).collect();
    assert_eq!(counts, vec![9, 7, 5]);

    let top2 = cache.get_top_reacted_messages(&no_filter(), 2);
    let counts2: Vec<i64> = top2.iter().map(|r| r.count).collect();
    assert_eq!(counts2, vec![9, 7]);
}

#[test]
fn top_applies_author_and_channel_filters() {
    let mut cache = BestOf::new();
    cache.update_messages_for_channel(&vec![
        record(1, "alice", "general", 5, 100),
        record(2, "bela", "general", 9, 200),
        record(3, "alice", "random", 7, 300),
    ]);
    let by_author = cache.get_top_reacted_messages(
        &TopFilter { author: Some("alice".to_string()), channel: None, since: None },
        10,
    );
    assert_eq!(by_author.iter().map(|r| r.id).collect::<Vec<_>>(), vec![3, 1]);

    let by_channel = cache.get_top_reacted_messages(
        &TopFilter { author: None, channel: Some("general".to_string()), since: None },
        10,
    );
    assert_eq!(by_channel.iter().map(|r| r.id).collect::<Vec<_>>(), vec![2, 1]);

    let both = cache.get_top_reacted_messages(
        &TopFilter {
            author: Some("alice".to_string()),
            channel: Some("general".to_string()),
            since: None,
        },
        10,
    );
    assert_eq!(both.iter().map(|r| r.id).collect::<Vec<_>>(), vec![1]);
}

#[test]
fn top_applies_time_window() {
    let mut cache = BestOf::new();
    cache.update_messages_for_channel(&vec![
        record(1, "a", "general", 5, 100),
        record(2, "b", "general", 9, 2000),
    ]);
    let recent = cache.get_top_reacted_messages(
        &TopFilter { author: None, channel: None, since: Some(1000) },
        10,
    );
    assert_eq!(recent.iter().map(|r| r.id).collect::<Vec<_>>(), vec![2]);
}

#[test]
fn top_with_no_match_is_empty_not_an_error() {
    let mut cache = BestOf::new();
    cache.update_messages_for_channel(&vec![record(1, "alice", "general", 5, 100)]);
    let top = cache.get_top_reacted_messages(
        &TopFilter { author: Some("nobody".to_string()), channel: None, since: None },
        10,
    );
    assert!(top.is_empty());
}

#[test]
fn ties_do_not_drop_records() {
    let mut cache = BestOf::new();
    cache.update_messages_for_channel(&vec![
        record(1, "a", "general", 7, 100),
        record(2, "b", "general", 7, 200),
        record(3, "c", "general", 7, 300),
    ]);
    let top = cache.get_top_reacted_messages(&no_filter(), 2);
    assert_eq!(top.len(), 2);
    assert!(top[0].id != top[1].id);
    let all = cache.get_top_reacted_messages(&no_filter(), 10);
    assert_eq!(all.len(), 3);
}

#[test]
fn filter_match_is_exact() {
    let r = record(1, "alice", "general", 5, 500);
    assert!(matches_filter(&r, &no_filter()));
    assert!(matches_filter(
        &r,
        &TopFilter { author: Some("alice".to_string()), channel: None, since: Some(500) },
    ));
    assert!(!matches_filter(
        &r,
        &TopFilter { author: None, channel: None, since: Some(501) },
    ));
    assert!(!matches_filter(
        &r,
        &TopFilter { author: Some("bela".to_string()), channel: None, since: None },
    ));
}

#[test]
fn cutoffs_count_back_from_now() {
    assert_eq!(cutoff_for(&TimeRange::Today, 1_000_000), 1_000_000 - 86_400);
    assert_eq!(cutoff_for(&TimeRange::ThisWeek, 1_000_000), 1_000_000 - 604_800);
    assert_eq!(cutoff_for(&TimeRange::ThisMonth, 2_600_000), 8_000);
    assert_eq!(cutoff_for(&TimeRange::ThisYear, 31_536_001), 1);
    let c = current_cutoff(&TimeRange::Today);
    assert!(c > 1_700_000_000 - 86_400);
}
