use momo_core::store::{GroupChatSegment, Store};

fn seg(message_id: i32, time: &str, content: &str) -> GroupChatSegment {
    GroupChatSegment {
        message_id,
        time: time.to_string(),
        sender_id: 42,
        sender_name: "alice".to_string(),
        seg_type: "text".to_string(),
        content: content.to_string(),
        interpret: "text".to_string(),
    }
}

#[test]
fn insert_and_find_by_message_id_in_storage_order() {
    let mut store = Store::new();
    store.insert(1, seg(10, "2024-01-01 10:00:00", "a"));
    store.insert(1, seg(11, "2024-01-01 10:00:01", "b"));
    store.insert(1, seg(10, "2024-01-01 10:00:02", "c"));
    store.insert(2, seg(10, "2024-01-01 10:00:03", "other channel"));

    let found = store.find_by_message_id(1, 10);
    assert_eq!(found.len(), 2);
    assert_eq!(found[0].content, "a");
    assert_eq!(found[1].content, "c");

    assert!(store.find_by_message_id(3, 10).is_empty());
    assert!(store.find_by_message_id(1, 99).is_empty());
}

#[test]
fn multi_part_message_survives_load_recent_one() {
    let mut store = Store::new();
    store.insert(5, seg(1, "2024-01-01 09:00:00", "old"));
    // one message fanned out into three segments sharing a timestamp
    store.insert(5, seg(2, "2024-01-01 10:00:00", "p1"));
    store.insert(5, seg(2, "2024-01-01 10:00:00", "p2"));
    store.insert(5, seg(2, "2024-01-01 10:00:00", "p3"));

    let recent = store.load_recent(5, 1);
    assert_eq!(recent.len(), 3);
    assert_eq!(recent[0].content, "p1");
    assert_eq!(recent[1].content, "p2");
    assert_eq!(recent[2].content, "p3");
}

#[test]
fn load_recent_counts_distinct_timestamps_and_sorts_ascending() {
    let mut store = Store::new();
    store.insert(9, seg(1, "2024-01-03 00:00:00", "newest"));
    store.insert(9, seg(2, "2024-01-01 00:00:00", "oldest"));
    store.insert(9, seg(3, "2024-01-02 00:00:00", "middle a"));
    store.insert(9, seg(4, "2024-01-02 00:00:00", "middle b"));

    let recent = store.load_recent(9, 2);
    // two most recent distinct timestamps: 01-02 and 01-03, ascending
    assert_eq!(recent.len(), 3);
    assert_eq!(recent[0].content, "middle a");
    assert_eq!(recent[1].content, "middle b");
    assert_eq!(recent[2].content, "newest");

    let all = store.load_recent(9, 10);
    assert_eq!(all.len(), 4);
    assert_eq!(all[0].content, "oldest");
    assert_eq!(all[3].content, "newest");

    assert!(store.load_recent(9, 0).is_empty());
    assert!(store.load_recent(404, 3).is_empty());
}

#[test]
fn load_recent_sorts_replayed_history() {
    let mut store = Store::new();
    // an append-only replay stores an old timestamp after a newer one
    store.insert(1, seg(1, "2024-01-02 00:00:00", "second"));
    store.insert(1, seg(2, "2024-01-01 00:00:00", "first"));

    let all = store.load_recent(1, 5);
    assert_eq!(all.len(), 2);
    assert_eq!(all[0].content, "first");
    assert_eq!(all[1].content, "second");
}

#[test]
fn repeated_ensure_channel_table_keeps_one_table() {
    let mut store = Store::new();
    store.ensure_channel_table(77);
    store.insert(77, seg(1, "2024-01-01 00:00:00", "kept"));
    // concurrent first-writers all ensure the same channel; none may clobber it
    for _ in 0..5 {
        store.ensure_channel_table(77);
    }
    let rows = store.load_recent(77, 10);
    assert_eq!(rows.len(), 1);
    assert_eq!(rows[0].content, "kept");
}

#[test]
fn store_segments_appends_in_order() {
    let mut store = Store::new();
    let batch = vec![
        seg(3, "2024-01-01 00:00:00", "x"),
        seg(3, "2024-01-01 00:00:00", "y"),
    ];
    store.store_segments(8, batch);
    let rows = store.find_by_message_id(8, 3);
    assert_eq!(rows.len(), 2);
    assert_eq!(rows[0].content, "x");
    assert_eq!(rows[1].content, "y");
}

#[test]
fn empty_history_export_is_header_only() {
    let store = Store::new();
    assert_eq!(
        store.dump_history_csv(1, 5),
        "message_id,time,sender_id,sender_name,type,content,interpret\n"
    );
    assert_eq!(store.dump_log_csv(5), "time,level,content\n");
}

#[test]
fn history_export_has_one_line_per_row() {
    let mut store = Store::new();
    store.insert(4, seg(21, "2024-01-01 08:00:00", "hello"));
    let csv = store.dump_history_csv(4, 5);
    assert_eq!(
        csv,
        "message_id,time,sender_id,sender_name,type,content,interpret\n\
         21,2024-01-01 08:00:00,42,alice,text,hello,text\n"
    );
}

#[test]
fn csv_quotes_commas_quotes_and_line_breaks() {
    let mut store = Store::new();
    let mut odd = seg(5, "2024-01-01 08:00:00", "a,b");
    odd.sender_name = "an \"alias\"".to_string();
    odd.interpret = "line\nbreak".to_string();
    store.insert(4, odd);
    let csv = store.dump_history_csv(4, 5);
    assert_eq!(
        csv,
        "message_id,time,sender_id,sender_name,type,content,interpret\n\
         5,2024-01-01 08:00:00,42,\"an \"\"alias\"\"\",text,\"a,b\",\"line\nbreak\"\n"
    );
}

#[test]
fn bot_log_appends_and_exports() {
    let mut store = Store::new();
    store.write_bot_log(
        "2024-01-01 08:00:00".to_string(),
        "INFO".to_string(),
        "started".to_string(),
    );
    store.write_bot_log(
        "2024-01-01 08:00:01".to_string(),
        "ERROR".to_string(),
        "boom".to_string(),
    );
    let recent = store.recent_log(1);
    assert_eq!(recent.len(), 1);
    assert_eq!(recent[0].content, "boom");

    let csv = store.dump_log_csv(10);
    assert_eq!(
        csv,
        "time,level,content\n\
         2024-01-01 08:00:00,INFO,started\n\
         2024-01-01 08:00:01,ERROR,boom\n"
    );
}
