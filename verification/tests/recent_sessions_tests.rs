use xueli_memory::internal::access_policy::MemoryAccessContext;
use xueli_memory::retrieval::recent_sessions::{restore_scope, session_restore_contents, RecentMessage};

fn msg(session: &str, text: &str, time_key: u64, time_text: &str) -> RecentMessage {
    RecentMessage {
        session_id: session.to_string(),
        text: text.to_string(),
        time_key,
        time_text: time_text.to_string(),
    }
}

fn context(message_type: &str, group_id: &str) -> MemoryAccessContext {
    MemoryAccessContext {
        requester_user_id: "u1".to_string(),
        message_type: message_type.to_string(),
        group_id: group_id.to_string(),
        read_scope: "user".to_string(),
        platform: "qq".to_string(),
        hour_of_day: -1,
    }
}

#[test]
fn restored_sessions_latest_first() {
    let messages = vec![
        msg("s1", "a", 10, "10"),
        msg("", "b", 5, "5"),
        msg("s1", "c", 3, "3"),
        msg("s2", "d", 20, "20"),
        msg("s1", "e", 10, "10b"),
    ];
    let contents = session_restore_contents(&messages, "qq:private:u1");
    assert_eq!(
        contents,
        vec![
            "上一轮会话（20，1轮）：简短对话（1条消息）".to_string(),
            "更早一轮会话（10b，3轮）：共3条消息，从「c…」到「e…」".to_string(),
        ]
    );
}

#[test]
fn restored_sessions_of_equal_time_keep_first_seen_order() {
    let messages = vec![
        msg("s1", "a", 7, ""),
        msg("s2", "b", 7, ""),
        msg("s3", "c", 7, ""),
    ];
    let contents = session_restore_contents(&messages, "dk");
    assert_eq!(
        contents,
        vec![
            "上一轮会话（1轮）：简短对话（1条消息）".to_string(),
            "更早一轮会话（1轮）：简短对话（1条消息）".to_string(),
        ]
    );
    let messages = vec![msg("s1", "a", 1, "t1"), msg("s2", "b", 7, "t7"), msg("s3", "c", 7, "t7c")];
    let contents = session_restore_contents(&messages, "dk");
    assert!(contents[0].contains("t7，"));
    assert!(contents[1].contains("t7c，"));
}

#[test]
fn restored_sessions_of_nothing() {
    assert!(session_restore_contents(&[], "dk").is_empty());
    let one = session_restore_contents(&[msg("", "x", 1, "1")], "dk");
    assert_eq!(one, vec!["上一轮会话（1，1轮）：简短对话（1条消息）".to_string()]);
}

#[test]
fn restore_scope_keys() {
    assert_eq!(restore_scope(&context("group", "g1")), ("qq:group:g1".to_string(), true));
    assert_eq!(restore_scope(&context("group", "")), ("qq:private:u1".to_string(), false));
    assert_eq!(restore_scope(&context("private", "g1")), ("qq:private:u1".to_string(), false));
}
