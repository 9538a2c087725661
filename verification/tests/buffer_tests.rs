use xueli_memory::extraction::buffer::{BufferTurn, ExtractionBuffer};
use xueli_memory::extraction::extractor::MemoryExtractor;

fn add_turn(buf: &mut ExtractionBuffer, session: &str, turn_id: usize) {
    buf.add_dialogue_turn(
        "u1", "hello", "hi there", session, turn_id, "dk", "private", "", "", "", "test",
    );
}

#[test]
fn test_add_and_count() {
    let mut buf = ExtractionBuffer::new();
    add_turn(&mut buf, "s1", 1);
    add_turn(&mut buf, "s1", 2);
    assert_eq!(buf.get_turn_count("s1"), 2);
}

#[test]
fn test_pending_turns() {
    let mut buf = ExtractionBuffer::new();
    add_turn(&mut buf, "s1", 1);
    add_turn(&mut buf, "s1", 2);
    add_turn(&mut buf, "s1", 3);

    assert_eq!(buf.get_pending_turn_count("s1"), 3);

    buf.mark_session_extracted("s1", 2);
    assert_eq!(buf.get_pending_turn_count("s1"), 1);
    let pending = buf.get_pending_turns("s1");
    assert_eq!(pending[0].turn_id, 3);
}

#[test]
fn test_should_extract() {
    let mut buf = ExtractionBuffer::new();
    assert!(!buf.should_extract("s1", 5));
    for i in 1..=6 {
        add_turn(&mut buf, "s1", i);
    }
    assert!(buf.should_extract("s1", 5));
    assert!(!buf.should_extract("s1", 7));
}

#[test]
fn test_max_turns_200() {
    let mut buf = ExtractionBuffer::new();
    for i in 0..250 {
        add_turn(&mut buf, "s1", i);
    }
    assert!(buf.get_turn_count("s1") <= 200);
    let pending = buf.get_pending_turns("s1");
    assert!(pending.len() <= 200);
}

#[test]
fn test_clear_single_session() {
    let mut buf = ExtractionBuffer::new();
    add_turn(&mut buf, "s1", 1);
    add_turn(&mut buf, "s2", 1);
    buf.clear_buffer(Some("s1"));
    assert_eq!(buf.get_turn_count("s1"), 0);
    assert_eq!(buf.get_turn_count("s2"), 1);
}

#[test]
fn test_clear_all() {
    let mut buf = ExtractionBuffer::new();
    add_turn(&mut buf, "s1", 1);
    add_turn(&mut buf, "s2", 1);
    buf.clear_buffer(None);
    assert_eq!(buf.get_turn_count("s1"), 0);
    assert_eq!(buf.get_turn_count("s2"), 0);
}

#[test]
fn test_empty_session_id_is_ignored() {
    let mut buf = ExtractionBuffer::new();
    buf.add_dialogue_turn("u1", "a", "b", "", 1, "", "private", "", "", "", "");
    assert_eq!(buf.get_turn_count(""), 0);
}

#[test]
fn buffer_keeps_latest_200_turns_exactly() {
    let mut buf = ExtractionBuffer::new();
    for i in 0..250 {
        add_turn(&mut buf, "s1", i);
    }
    assert_eq!(buf.get_turn_count("s1"), 200);
    let pending = buf.get_pending_turns("s1");
    // turn 0 is not pending (mark 0), the kept turns are 50..250
    assert_eq!(pending.len(), 200);
    assert_eq!(pending[0].turn_id, 50);
    assert_eq!(pending[199].turn_id, 249);
}

#[test]
fn buffer_session_id_is_trimmed_and_metadata_recorded() {
    let mut buf = ExtractionBuffer::new();
    buf.add_dialogue_turn("owner", "u", "a", "  s9 ", 4, "qq:private:owner", "", "g", "m", "n", "qq");
    assert_eq!(buf.get_turn_count("s9"), 1);
    assert_eq!(buf.get_dialogue_key("s9"), "qq:private:owner");
    assert_eq!(buf.get_session_owner("s9"), "owner");
    assert_eq!(buf.get_session_owner("  s9 "), "");
    let pending = buf.get_pending_turns(" s9");
    assert_eq!(pending[0].source_message_type, "private");
    assert_eq!(pending[0].session_id, "s9");
    assert_eq!(pending[0].source_group_id, "g");
}

#[test]
fn buffer_extraction_mark_never_moves_back() {
    let mut buf = ExtractionBuffer::new();
    for i in 1..=5 {
        add_turn(&mut buf, "s1", i);
    }
    buf.mark_session_extracted("s1", 4);
    buf.mark_session_extracted("s1", 2);
    assert_eq!(buf.get_pending_turn_count("s1"), 1);
    buf.mark_session_extracted("", 9);
    assert_eq!(buf.get_pending_turn_count("s1"), 1);
}

#[test]
fn buffer_should_extract_interval_zero_counts_as_one() {
    let mut buf = ExtractionBuffer::new();
    assert!(!buf.should_extract("s1", 0));
    add_turn(&mut buf, "s1", 1);
    assert!(buf.should_extract("s1", 0));
}

fn turn(id: usize, user: &str, assistant: &str, message_type: &str) -> BufferTurn {
    BufferTurn {
        turn_id: id,
        user: user.to_string(),
        assistant: assistant.to_string(),
        timestamp: "2024-01-01T00:00:00Z".to_string(),
        source_message_type: message_type.to_string(),
        source_group_id: String::new(),
        source_message_id: format!("msg{}", id),
        source_platform: "qq".to_string(),
        owner_user_id: "u1".to_string(),
        dialogue_key: "qq:private:u1".to_string(),
        session_id: "session_1".to_string(),
        narrative_summary: String::new(),
    }
}

fn make_extractor() -> MemoryExtractor {
    MemoryExtractor::new("gpt-4o-mini")
}

#[test]
fn test_format_dialogue() {
    let extractor = make_extractor();
    let turns = vec![
        BufferTurn {
            turn_id: 1,
            user: "你好".to_string(),
            assistant: "你好呀！".to_string(),
            timestamp: "2024-01-01T00:00:00Z".to_string(),
            source_message_type: "private".to_string(),
            source_group_id: String::new(),
            source_message_id: "msg1".to_string(),
            source_platform: "qq".to_string(),
            owner_user_id: "u1".to_string(),
            dialogue_key: "qq:private:u1".to_string(),
            session_id: "session_1".to_string(),
            narrative_summary: String::new(),
        },
        BufferTurn {
            turn_id: 2,
            user: "我喜欢喝咖啡".to_string(),
            assistant: "好的，记住了！".to_string(),
            timestamp: "2024-01-01T00:01:00Z".to_string(),
            source_message_type: "private".to_string(),
            source_group_id: String::new(),
            source_message_id: "msg2".to_string(),
            source_platform: "qq".to_string(),
            owner_user_id: "u1".to_string(),
            dialogue_key: "qq:private:u1".to_string(),
            session_id: "session_1".to_string(),
            narrative_summary: String::new(),
        },
    ];

    let formatted = extractor.format_dialogue(&turns, "u1");
    assert!(formatted.contains("T1"));
    assert!(formatted.contains("T2"));
    assert!(formatted.contains("咖啡"));
    assert!(formatted.contains("私聊"));
}

#[test]
fn test_format_dialogue_empty() {
    let extractor = make_extractor();
    let formatted = extractor.format_dialogue(&[], "u1");
    assert_eq!(formatted, "无");
}

#[test]
fn format_dialogue_exact_text() {
    let extractor = make_extractor();
    let turns = vec![turn(12, " 早 ", "", "group"), turn(13, "", "  ", "group")];
    let formatted = extractor.format_dialogue(&turns, "u7");
    let expected = "=== 用户 u7 的群聊对话记录 ===\n\
下面这些内容同时包含用户发言和助手发言。\n\
用户发言是判断记忆的主要来源，助手发言只用于帮助理解上下文，不能直接当成记忆来源。\n\
每条前缀里的 Tn 是稳定 turn 标签，输出时必须引用它。\n\
\n\
T12: 用户u7: 早";
    assert_eq!(formatted, expected);
}

#[test]
fn format_dialogue_without_user_words_is_none_marker() {
    let extractor = make_extractor();
    let turns = vec![turn(1, "   ", "hello", "private")];
    assert_eq!(extractor.format_dialogue(&turns, "u1"), "无");
}

#[test]
fn extractor_interval_and_pending() {
    let mut extractor = make_extractor().with_extract_every_n_turns(2).with_max_dialogue_length(0);
    extractor.add_dialogue_turn("u1", "a", "b", "s1", 1, "dk", "private", "", "", "", "qq");
    assert!(!extractor.should_extract("s1"));
    extractor.add_dialogue_turn("u1", "c", "d", "s1", 2, "dk", "private", "", "", "", "qq");
    assert!(extractor.should_extract("s1"));
    assert_eq!(extractor.get_pending_turn_count("s1"), 2);
    extractor.clear_buffer(Some("s1"));
    assert_eq!(extractor.get_pending_turn_count("s1"), 0);
}

#[test]
fn turn_count_ignores_padding_and_stays_bounded() {
    let mut buf = ExtractionBuffer::new();
    for i in 0..205 {
        add_turn(&mut buf, " s2  ", i);
    }
    assert_eq!(buf.get_turn_count("s2"), 200);
    assert_eq!(buf.get_turn_count("\t s2 "), 200);
    buf.mark_session_extracted("s2", 100);
    add_turn(&mut buf, "s2", 205);
    assert_eq!(buf.get_turn_count("s2"), 200);
}

#[test]
fn dialogue_key_and_owner_are_the_last_added_since_a_clear() {
    let mut buf = ExtractionBuffer::new();
    buf.add_dialogue_turn("u1", "a", "b", " s3 ", 1, "dk1", "", "", "", "", "qq");
    buf.add_dialogue_turn("u2", "a", "b", "s3", 2, "dk2", "", "", "", "", "qq");
    buf.mark_session_extracted("s3", 2);
    assert_eq!(buf.get_dialogue_key("s3"), "dk2");
    assert_eq!(buf.get_session_owner("s3"), "u2");
    assert_eq!(buf.get_dialogue_key("never"), "");
    buf.clear_buffer(Some("s3"));
    assert_eq!(buf.get_dialogue_key("s3"), "");
    assert_eq!(buf.get_turn_count("s3"), 0);
    buf.add_dialogue_turn("u3", "a", "b", "s3", 3, "dk3", "", "", "", "", "qq");
    assert_eq!(buf.get_dialogue_key("s3"), "dk3");
    assert_eq!(buf.get_session_owner("s3"), "u3");
    buf.clear_buffer(None);
    assert_eq!(buf.get_session_owner("s3"), "");
}
