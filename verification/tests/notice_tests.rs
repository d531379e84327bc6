use momo_core::api::{
    first_answer, pick_display_name, Answer, Choice, GptResponse, GroupMemberInfoResponse, Usage,
};
use momo_core::notice::{make_recall_indicator, reconcile_recall, GroupRecall, RecallOutcome};
use momo_core::settings::{DatabaseSetting, GlobalSetting, ObjectStorageSetting};
use momo_core::sql;
use momo_core::store::GroupChatSegment;
use momo_core::timefmt::{iso8601_from_timestamp, TimeRepr};

fn seg(message_id: i32, content: &str) -> GroupChatSegment {
    GroupChatSegment {
        message_id,
        time: "2024-01-01 10:00:00".to_string(),
        sender_id: 42,
        sender_name: "alice".to_string(),
        seg_type: "text".to_string(),
        content: content.to_string(),
        interpret: "text".to_string(),
    }
}

fn recall_notice(time: i64, message_id: i64) -> GroupRecall {
    GroupRecall {
        time,
        self_id: 1,
        group_id: 9,
        user_id: 42,
        operator_id: 43,
        message_id,
    }
}

#[test]
fn reconcile_replays_originals_behind_one_tombstone() {
    let originals = vec![seg(777, "part one"), seg(777, "part two")];
    let outcome = reconcile_recall(&recall_notice(0, 777), 5, "op", "alice", originals);
    match outcome {
        RecallOutcome::Replay(plan) => {
            assert_eq!(plan.len(), 3);
            assert_eq!(plan[0].message_id, 0);
            assert_eq!(plan[0].sender_name, "RECALL_INDICATOR");
            assert_eq!(plan[0].interpret, "RECALL_INDICATOR");
            assert_eq!(plan[0].seg_type, "text");
            assert_eq!(plan[0].sender_id, 5);
            assert_eq!(plan[0].time, "1970-01-01 08:00:00");
            assert_eq!(plan[0].content, "op 撤回了 alice 的消息, id=777");
            assert_eq!(plan[1], seg(777, "part one"));
            assert_eq!(plan[2], seg(777, "part two"));
        }
        other => panic!("expected a replay, got {:?}", other),
    }
}

#[test]
fn reconcile_without_stored_segments_stops_quietly() {
    let outcome = reconcile_recall(&recall_notice(0, 777), 5, "op", "alice", Vec::new());
    assert!(matches!(outcome, RecallOutcome::NotFound));
}

#[test]
fn reconcile_rejects_an_unrepresentable_timestamp() {
    let originals = vec![seg(777, "part one")];
    let outcome = reconcile_recall(&recall_notice(i64::MIN, 777), 5, "op", "alice", originals);
    assert!(matches!(outcome, RecallOutcome::BadTimestamp));
    // a timestamp whose shifted date-time falls just past the calendar's end
    let originals = vec![seg(777, "part one")];
    let outcome =
        reconcile_recall(&recall_notice(253402300799, 777), 5, "op", "alice", originals);
    assert!(matches!(outcome, RecallOutcome::BadTimestamp));
}

#[test]
fn recall_indicator_narrates_the_retraction() {
    let t = make_recall_indicator("2024-01-01 10:00:00".to_string(), 5, "张三", "李四", -3);
    assert_eq!(t.message_id, 0);
    assert_eq!(t.content, "张三 撤回了 李四 的消息, id=-3");
}

#[test]
fn unix_timestamps_format_at_utc_plus_eight() {
    assert_eq!(iso8601_from_timestamp(0), Some("1970-01-01 08:00:00".to_string()));
    assert_eq!(iso8601_from_timestamp(1627847284), Some("2021-08-02 03:48:04".to_string()));
    assert_eq!(iso8601_from_timestamp(i64::MIN), None);
    // the last representable second at UTC+8, and the first beyond it:
    // a timestamp near the top of year 9999 shifts past the calendar's end
    // and must come back as None, never abort
    assert_eq!(
        iso8601_from_timestamp(253402271999),
        Some("9999-12-31 23:59:59".to_string())
    );
    assert_eq!(iso8601_from_timestamp(253402272000), None);
    assert_eq!(iso8601_from_timestamp(253402300799), None);
}

#[test]
fn time_repr_converts_only_raw_timestamps() {
    let formatted = TimeRepr::Iso8601("2024-01-01 10:00:00".to_string());
    assert_eq!(formatted.to_iso8601(), Some("2024-01-01 10:00:00".to_string()));
    let raw = TimeRepr::UnixTimeStamp(0);
    assert_eq!(raw.to_iso8601(), Some("1970-01-01 08:00:00".to_string()));
    let bad = TimeRepr::UnixTimeStamp(i64::MIN);
    assert_eq!(bad.to_iso8601(), None);
}

#[test]
fn sql_statements_are_exact() {
    assert_eq!(sql::get_group_msg_table_name("message", 123), "message123");
    assert_eq!(sql::get_group_msg_table_name("m_", -7), "m_-7");
    assert_eq!(
        sql::insert_group_msg("message123"),
        "INSERT INTO message123 (message_id, time, sender_id, sender_name, type, content, interpret) VALUES ($1, $2, $3, $4, $5, $6, $7);"
    );
    assert_eq!(
        sql::insert_log("bot_log"),
        "INSERT INTO bot_log (time, level, content) VALUES ($1, $2, $3);"
    );
    assert_eq!(
        sql::create_log_table("bot_log"),
        "CREATE TABLE IF NOT EXISTS bot_log (auto_id INTEGER PRIMARY KEY, time TEXT, level TEXT, content TEXT); CREATE INDEX IF NOT EXISTS log_time ON bot_log (time);"
    );
    assert_eq!(
        sql::create_group_msg_table("message123"),
        "CREATE TABLE IF NOT EXISTS message123 (auto_id INTEGER PRIMARY KEY, message_id INTEGER, time TEXT, sender_id INTEGER, sender_name TEXT, type TEXT, content TEXT, interpret TEXT); CREATE INDEX IF NOT EXISTS msg_id ON message123 (message_id); CREATE INDEX IF NOT EXISTS msg_time ON message123 (time);"
    );
    assert_eq!(
        sql::load_n_latest_msg("message123"),
        "SELECT message_id, time, sender_id, sender_name, type, content, interpret FROM message123 WHERE time IN (SELECT DISTINCT time FROM message123 ORDER BY time DESC LIMIT $1) ORDER BY time ASC;"
    );
    assert_eq!(
        sql::load_n_latest_log("bot_log"),
        "SELECT time, level, content FROM bot_log WHERE time IN (SELECT DISTINCT time FROM bot_log ORDER BY time DESC LIMIT $1) ORDER BY time ASC;"
    );
    assert_eq!(
        sql::find_segment_by_id("message123"),
        "SELECT message_id, time, sender_id, sender_name, type, content, interpret FROM message123 WHERE message_id = $1;"
    );
}

#[test]
fn display_name_prefers_card_then_nickname_then_id() {
    let mut info = GroupMemberInfoResponse {
        group_id: 9,
        user_id: 42,
        nickname: "nick".to_string(),
        card: "card".to_string(),
        sex: String::new(),
        age: 0,
        area: String::new(),
        join_time: 0,
        last_sent_time: 0,
        level: String::new(),
        role: String::new(),
        unfriendly: false,
        title: String::new(),
        card_changeable: false,
    };
    assert_eq!(pick_display_name(&info, 42), "card");
    info.card = String::new();
    assert_eq!(pick_display_name(&info, 42), "nick");
    info.nickname = String::new();
    assert_eq!(pick_display_name(&info, 42), "42");
}

#[test]
fn first_answer_reads_the_first_choice() {
    let empty = GptResponse {
        id: "i".to_string(),
        model: "m".to_string(),
        choices: Vec::new(),
        usage: Usage { total_tokens: 0 },
    };
    assert_eq!(first_answer(&empty), None);

    let resp = GptResponse {
        id: "i".to_string(),
        model: "m".to_string(),
        choices: vec![
            Choice {
                message: Answer { content: "first".to_string() },
                finish_reason: "stop".to_string(),
            },
            Choice {
                message: Answer { content: "second".to_string() },
                finish_reason: "stop".to_string(),
            },
        ],
        usage: Usage { total_tokens: 9 },
    };
    assert_eq!(first_answer(&resp), Some(&"first".to_string()));
}

#[test]
fn setting_defaults_match_the_template() {
    let db = DatabaseSetting::default();
    assert_eq!(db.max_connections, 5);
    assert_eq!(db.log_table_name, "bot_log");
    assert_eq!(db.group_table_prefix, "message");
    assert_eq!(db.group_table_name(42), "message42");
    assert_eq!(GlobalSetting::default().max_sleep_sec, 8);
    assert_eq!(ObjectStorageSetting::default().script_path, "/a/b/c");
}
