use xueli_memory::core_types::MemoryType;
use xueli_memory::extraction::buffer::BufferTurn;
use xueli_memory::internal::background::{
    background_extraction_mark, extract_json_from_text, extraction_conversation, listed_memory_type,
    read_listed_memories, ListedMemory,
};

fn pending_turn(turn_id: usize, user: &str, assistant: &str) -> BufferTurn {
    BufferTurn {
        turn_id,
        user: user.to_string(),
        assistant: assistant.to_string(),
        timestamp: String::new(),
        source_message_type: "private".to_string(),
        source_group_id: String::new(),
        source_message_id: String::new(),
        source_platform: String::new(),
        owner_user_id: "u1".to_string(),
        dialogue_key: String::new(),
        session_id: "s1".to_string(),
        narrative_summary: String::new(),
    }
}

fn key(c: f64) -> u64 {
    c.clamp(0.0, 1.0).to_bits()
}

#[test]
fn test_extract_json_from_text_plain() {
    let input = r#"{"has_insight": true, "content": "test", "confidence": 0.9}"#;
    let result = extract_json_from_text(input);
    assert!(result.contains("has_insight"));
}

#[test]
fn test_extract_json_from_text_with_fence() {
    let input = "```json\n{\"key\": \"value\"}\n```";
    assert_eq!(extract_json_from_text(input), "{\"key\": \"value\"}");
}

#[test]
fn test_extract_json_from_text_with_fence_no_lang() {
    let input = "```\n{\"key\": \"value\"}\n```";
    assert_eq!(extract_json_from_text(input), "{\"key\": \"value\"}");
}

#[test]
fn extract_json_prefers_the_earlier_bracket() {
    assert_eq!(extract_json_from_text("note: [1, {\"a\": 2}] end"), "[1, {\"a\": 2}]");
    assert_eq!(extract_json_from_text("x {\"a\": [1]} y"), "{\"a\": [1]}");
    assert_eq!(extract_json_from_text("open { never closed"), "{ never closed");
    assert_eq!(extract_json_from_text("  plain words  "), "plain words");
    assert_eq!(extract_json_from_text(""), "");
}

#[test]
fn background_conversation_labels_each_side() {
    let turns = vec![pending_turn(3, "我喜欢猫", "好的"), pending_turn(5, "", "嗯")];
    assert_eq!(extraction_conversation(&turns), "[用户] 我喜欢猫\n[助手] 好的\n[用户] \n[助手] 嗯");
    assert_eq!(extraction_conversation(&[]), "");
}

#[test]
fn background_marks_unless_forced() {
    let turns = vec![pending_turn(3, "a", "b"), pending_turn(9, "c", "d"), pending_turn(5, "e", "f")];
    assert_eq!(background_extraction_mark(&turns, false), Some(9));
    assert_eq!(background_extraction_mark(&turns, true), None);
    assert_eq!(background_extraction_mark(&[], false), None);
}

#[test]
fn background_reply_memories_keep_confident_ones() {
    let listed = vec![
        ListedMemory { content: Some("喜欢猫".into()), memory_type: Some("preference".into()), confidence_key: key(0.9) },
        ListedMemory { content: Some("大概住北京".into()), memory_type: None, confidence_key: key(0.2) },
        ListedMemory { content: None, memory_type: Some("event".into()), confidence_key: key(0.9) },
        ListedMemory { content: Some("有个妹妹".into()), memory_type: Some("relationship".into()), confidence_key: key(0.3) },
        ListedMemory { content: Some("x".into()), memory_type: Some("other".into()), confidence_key: key(0.5) },
    ];
    let read = read_listed_memories(&listed, key(0.3));
    let got: Vec<(&str, MemoryType)> = read.iter().map(|m| (m.content.as_str(), m.memory_type)).collect();
    assert_eq!(
        got,
        vec![("喜欢猫", MemoryType::Preference), ("有个妹妹", MemoryType::Relationship), ("x", MemoryType::Fact)]
    );
    assert_eq!(listed_memory_type(Some("opinion")), MemoryType::Opinion);
    assert_eq!(listed_memory_type(None), MemoryType::Fact);
}
