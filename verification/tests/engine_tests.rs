use bestof::cache::BestOf;
use bestof::cache::ChannelBatch;
use bestof::notability::get_reacted_messages;
use bestof::notability::is_notable;
use bestof::notability::message_meets_criteria;
use bestof::notability::number_of_users_reacted;
use bestof::notability::total_number_of_reactions;
use bestof::record::BestOfMessage;
use bestof::record::MessageData;

fn message(id: i64, author: &str, bot: bool, counts: &[u64]) -> MessageData {
    MessageData {
        id,
        author: author.to_string(),
        author_is_bot: bot,
        content: format!("message {}", id),
        link: format!("https://example.invalid/{}", id),
        channel: "general".to_string(),
        reaction_counts: counts.to_vec(),
        timestamp: 1_700_000_000 + id,
        image: None,
    }
}

fn record(id: i64, count: i64) -> BestOfMessage {
    BestOfMessage {
        id,
        author: "someone".to_string(),
        content: format!("message {}", id),
        link: format!("https://example.invalid/{}", id),
        channel: "general".to_string(),
        count,
        timestamp: 1_700_000_000 + id,
        image: None,
    }
}

#[test]
fn notable_requires_human_author() {
    assert!(!is_notable(&message(1, "bot", true, &[10])));
    assert!(is_notable(&message(1, "human", false, &[10])));
}

#[test]
fn notable_requires_a_reaction() {
    assert!(!is_notable(&message(2, "human", false, &[])));
}

#[test]
fn notable_tests_max_single_reaction_type() {
    // five distinct reactions of one each: displayed total is five, but the
    // notability test is on the largest single type, so this is rejected
    assert!(!is_notable(&message(3, "human", false, &[1, 1, 1, 1, 1])));
    assert!(!is_notable(&message(4, "human", false, &[2, 2])));
    assert!(is_notable(&message(5, "human", false, &[5])));
    assert!(is_notable(&message(6, "human", false, &[4, 6])));
}

#[test]
fn reaction_aggregates_are_exact() {
    let m = message(7, "human", false, &[3, 4]);
    assert_eq!(number_of_users_reacted(&m), 4);
    assert_eq!(total_number_of_reactions(&m), 7);
    let none = message(8, "human", false, &[]);
    assert_eq!(number_of_users_reacted(&none), 0);
    assert_eq!(total_number_of_reactions(&none), 0);
}

#[test]
fn reaction_total_saturates_instead_of_overflowing() {
    let m = message(11, "human", false, &[u64::MAX, 5]);
    assert_eq!(total_number_of_reactions(&m), i64::MAX);
    assert_eq!(number_of_users_reacted(&m), u64::MAX);
}

#[test]
fn criteria_passes_message_through() {
    let m = message(9, "human", false, &[6]);
    let kept = message_meets_criteria(m);
    assert!(kept.is_some());
    assert_eq!(kept.unwrap().id, 9);
    assert!(message_meets_criteria(message(10, "bot", true, &[6])).is_none());
}

#[test]
fn scan_of_three_messages_yields_one_new_record() {
    // message A crosses the threshold, B fails the max-per-type test, C is from
    // an automated account
    let a = message(100, "alice", false, &[6]);
    let b = message(101, "bela", false, &[2, 2]);
    let c = message(102, "automaton", true, &[10]);
    let survivors = get_reacted_messages(vec![a, b, c]);
    assert_eq!(survivors.len(), 1);
    assert_eq!(survivors[0].id, 100);

    let records: Vec<BestOfMessage> =
        survivors.iter().map(BestOfMessage::from_message_data).collect();
    assert_eq!(records[0].count, 6);

    let mut cache = BestOf::new();
    let news = cache.update_messages_for_channel(&records);
    assert_eq!(news.len(), 1);
    assert_eq!(news[0].id, 100);
    assert_eq!(cache.current_size(), 1);
}

#[test]
fn merging_same_scan_twice_reports_nothing_new() {
    let batch = vec![record(1, 6), record(2, 9)];
    let mut cache = BestOf::new();
    let first = cache.update_messages_for_channel(&batch);
    assert_eq!(first.len(), 2);
    let before = cache.all_records();

    let second = cache.update_messages_for_channel(&batch);
    assert_eq!(second.len(), 0);
    assert_eq!(cache.all_records(), before);
    assert_eq!(cache.current_size(), 2);
}

#[test]
fn rescan_refreshes_count_without_reporting_new() {
    let mut cache = BestOf::new();
    let news = cache.update_messages_for_channel(&vec![record(1, 3), record(2, 8)]);
    assert_eq!(news.len(), 2);

    // the first message is now observed at count nine
    let rescan = vec![record(1, 9)];
    let news = cache.update_messages_for_channel(&rescan);
    assert_eq!(news.len(), 0);
    assert_eq!(cache.current_size(), 2);

    let filter = bestof::query::TopFilter { author: None, channel: None, since: None };
    let top = cache.get_top_reacted_messages(&filter, 1);
    assert_eq!(top.len(), 1);
    assert_eq!(top[0].id, 1);
    assert_eq!(top[0].count, 9);
}

#[test]
fn fanout_merge_aggregates_all_channels() {
    let mut cache = BestOf::new();
    let batches = vec![
        ChannelBatch { channel_id: 10, messages: vec![record(1, 6)] },
        ChannelBatch { channel_id: 11, messages: vec![record(2, 7), record(1, 8)] },
    ];
    let news = cache.update_runtime_db_from_new_bestof(&batches);
    // the duplicate id across channels refreshes, it is not new again
    assert_eq!(news.len(), 2);
    assert_eq!(news[0].id, 1);
    assert_eq!(news[1].id, 2);
    assert_eq!(cache.current_size(), 2);
    let rows = cache.all_records();
    let one = rows.iter().find(|r| r.id == 1).unwrap();
    assert_eq!(one.count, 8);
}

#[test]
fn load_replaces_cache_wholesale() {
    let mut cache = BestOf::new();
    cache.update_messages_for_channel(&vec![record(1, 6), record(2, 7)]);
    cache.load_from_persisted_db(vec![record(3, 9)]);
    assert_eq!(cache.current_size(), 1);
    assert_eq!(cache.all_records()[0].id, 3);
}
