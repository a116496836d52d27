use bestof::cache::BestOf;
use bestof::record::BestOfMessage;
use bestof::store::PersistedStore;

fn record(id: i64, count: i64) -> BestOfMessage {
    BestOfMessage {
        id,
        author: "someone".to_string(),
        content: format!("message {}", id),
        link: format!("https://example.invalid/{}", id),
        channel: "general".to_string(),
        count,
        timestamp: 1_700_000_000 + id,
        image: Some(format!("https://example.invalid/{}.png", id)),
    }
}

#[test]
fn upsert_inserts_then_overwrites() {
    let mut store = PersistedStore::new();
    assert_eq!(store.row_count(), 0);
    store.upsert(&record(1, 3));
    assert_eq!(store.row_count(), 1);
    store.upsert(&record(1, 9));
    assert_eq!(store.row_count(), 1);
    assert_eq!(store.load_all()[0].count, 9);
}

#[test]
fn load_then_flush_leaves_store_unchanged() {
    let mut store = PersistedStore::new();
    store.upsert(&record(1, 3));
    store.upsert(&record(2, 8));
    let before = store.load_all();

    let mut cache = BestOf::new();
    cache.load_from_persisted_db(store.load_all());
    cache.update_persisted_db(&mut store);

    assert_eq!(store.load_all(), before);
    assert_eq!(store.row_count(), 2);
}

#[test]
fn partial_flush_is_recovered_by_next_sweep() {
    let mut cache = BestOf::new();
    let batch: Vec<BestOfMessage> = (1..=5).map(|i| record(i, 10 + i)).collect();
    cache.update_messages_for_channel(&batch);

    // the sweep fails on the third row: only the first two got through
    let mut store = PersistedStore::new();
    let rows = cache.all_records();
    store.upsert(&rows[0]);
    store.upsert(&rows[1]);
    assert_eq!(store.row_count(), 2);

    // the next cycle repeats the whole sweep and brings all five across
    cache.update_persisted_db(&mut store);
    assert_eq!(store.row_count(), 5);
    let mut stored = store.load_all();
    stored.sort_by_key(|r| r.id);
    for (i, row) in stored.iter().enumerate() {
        assert_eq!(row.id, (i + 1) as i64);
        assert_eq!(row.count, 11 + i as i64);
    }
}

#[test]
fn flush_overlays_store_with_cache() {
    let mut store = PersistedStore::new();
    store.upsert(&record(1, 2));
    store.upsert(&record(9, 4));

    let mut cache = BestOf::new();
    cache.update_messages_for_channel(&vec![record(1, 7)]);
    cache.update_persisted_db(&mut store);

    assert_eq!(store.row_count(), 2);
    let mut rows = store.load_all();
    rows.sort_by_key(|r| r.id);
    assert_eq!(rows[0].id, 1);
    assert_eq!(rows[0].count, 7);
    assert_eq!(rows[1].id, 9);
    assert_eq!(rows[1].count, 4);
}
