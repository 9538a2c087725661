use xueli_memory::core_types::{MemoryItem, MemoryType};
use xueli_memory::extraction::agent::{
    build_extraction_prompt_content, format_existing_records_section, ExistingRecord,
};
use xueli_memory::internal::background::cluster_by_topic;
use xueli_memory::stores::conversation::{generate_session_id, parse_session_id, session_id_for};
use xueli_memory::stores::mood_store::sanitize_key;

fn item(id: &str, content: &str) -> MemoryItem {
    MemoryItem {
        id: id.into(),
        user_id: "u1".into(),
        content: content.into(),
        memory_type: MemoryType::Preference,
        importance: 8,
        created_at: 0,
        last_accessed_at: 0,
        access_count: 0,
    }
}

#[test]
fn test_cluster_by_topic() {
    let items = vec![item("1", "用户喜欢喝咖啡"), item("2", "用户每天早上喝咖啡"), item("3", "用户喜欢篮球运动")];
    // a threshold of 0.4
    let clusters = cluster_by_topic(&items, 2, 5);
    assert!(!clusters.is_empty());
    let coffee_cluster = clusters.iter().find(|c| c.iter().any(|m| m.id == "1"));
    assert!(coffee_cluster.is_some());
    assert!(coffee_cluster.unwrap().iter().any(|m| m.id == "2"));
}

#[test]
fn test_cluster_by_topic_single_item_no_cluster() {
    let items = vec![item("1", "用户喜欢喝咖啡"), item("2", "用户喜欢篮球运动")];
    // a threshold of 0.6
    assert!(cluster_by_topic(&items, 3, 5).is_empty());
}

#[test]
fn clusters_do_not_share_memories() {
    let items = vec![
        item("a", "喜欢喝咖啡"),
        item("b", "篮球运动"),
        item("c", "喜欢喝咖啡吗"),
        item("d", "篮球运动员"),
        item("e", "x"),
    ];
    let clusters = cluster_by_topic(&items, 1, 2);
    let ids: Vec<Vec<&str>> = clusters.iter().map(|c| c.iter().map(|m| m.id.as_str()).collect()).collect();
    assert_eq!(ids, vec![vec!["a", "c"], vec!["b", "d"]]);
}

#[test]
fn existing_records_section() {
    let records = vec![
        ExistingRecord { kind: "important".into(), content: " 用户是工程师 ".into() },
        ExistingRecord { kind: "ordinary".into(), content: "  ".into() },
        ExistingRecord { kind: "other".into(), content: "喜欢猫".into() },
    ];
    assert_eq!(format_existing_records_section(&records), "【已有记忆】\n1. [重要] 用户是工程师\n3. [普通] 喜欢猫");
    assert_eq!(format_existing_records_section(&[]), "");
    let many: Vec<ExistingRecord> = (0..32).map(|i| ExistingRecord { kind: "ordinary".into(), content: format!("m{}", i) }).collect();
    let text = format_existing_records_section(&many);
    assert!(text.ends_with("30. [普通] m29\n（仅展示前 30 条，共 32 条）"));
}

#[test]
fn extraction_prompt_content() {
    assert_eq!(
        build_extraction_prompt_content("u1", "T1: hi", "", ""),
        "【用户】\n用户ID=u1\n\n【对话记录】\nT1: hi"
    );
    assert_eq!(
        build_extraction_prompt_content("u1", "T1: hi", "在聊咖啡", "【已有记忆】\n1. [普通] x"),
        "【用户】\n用户ID=u1\n当前对话主线摘要：\n- 在聊咖啡\n如果本轮提取与主线冲突，请以当前对话明确表达为准。\n\n【对话记录】\nT1: hi\n\n【已有记忆】\n1. [普通] x"
    );
}

#[test]
fn test_sanitize_key() {
    let safe = sanitize_key("group:abc/def\\ghi");
    assert!(!safe.contains('/'));
    assert!(!safe.contains('\\'));
    assert!(!safe.contains(':'));
    assert_eq!(safe, "group_abc_def_ghi");
    assert_eq!(sanitize_key(""), "default");
}

#[test]
fn session_ids_read_back() {
    let id = session_id_for("u1", "qq:private:u1", "20240101000000", "0000000a");
    assert_eq!(id, "session_u1_qq_private_u1_20240101000000_0000000a");
    assert_eq!(
        parse_session_id(&id),
        Some(("u1".to_string(), "qq:private:u1".to_string(), "20240101000000".to_string(), "0000000a".to_string()))
    );
    assert_eq!(parse_session_id("session_short"), None);
    assert_eq!(parse_session_id("other_u1_qq_private_u1_20240101000000_0000000a"), None);
    assert_eq!(parse_session_id("session_u1_qq_private_u1_2024010100000x_0000000a"), None);
    let fresh = generate_session_id("u9", "qq:group:g1");
    let parts = parse_session_id(&fresh).unwrap();
    assert_eq!(parts.0, "u9");
    assert_eq!(parts.1, "qq:group:g1");
    assert_eq!(parts.3.len(), 8);
}
