use xueli_memory::chat_summary_service::{ChatSummaryService, SummaryRecord};
use xueli_memory::extraction::chat_summary::ChatSummaryService as SimpleSummary;
use xueli_memory::flow_service::{
    build_dedupe_key, has_reply_content, interaction_signals, narrative_event_text, RecentReplyKeys,
};
use xueli_memory::recall_service::{
    excerpt, format_entry, normalize_text, pick_recall_matches, recall_label, score_text_parts, ConversationTurn,
    ScoredSession, ScoredTurn,
};
use xueli_memory::session_restore_service::{
    build_dialogue_key, format_restore_entry, restore_candidates, restore_entry, SessionRecord,
};

fn ratio(parts: (usize, usize)) -> f64 {
    parts.0 as f64 / parts.1 as f64
}

#[test]
fn test_build_dedupe_key() {
    let key1 = build_dedupe_key("s1", "m1", "hello", "hi");
    let key2 = build_dedupe_key("s1", "m1", "hello", "hi");
    let key3 = build_dedupe_key("s1", "m1", "hello", "hey");
    assert_eq!(key1, key2);
    assert_ne!(key1, key3);
    assert!(!key1.is_empty());
}

#[test]
fn dedupe_key_is_sha256_of_the_joined_reply() {
    // SHA-256 of "s|m|u|r" and of "|||"
    let key = build_dedupe_key("s", "m", "u", "r");
    assert_eq!(key, "e6c2b950870bfe96e7ac59a7e07a75b45ebf4c79ff1b7cb747f25372281768f8");
    assert_ne!(key, build_dedupe_key("s|m", "", "u", "r"));
    assert_eq!(
        build_dedupe_key("", "", "", ""),
        "be5be69f55e91af25e54ecc2154d4da359b67b3b27e25f5cc0b3ff54eb74dff3"
    );
}

#[test]
fn test_dedupe() {
    let mut keys = RecentReplyKeys::new();
    let key = "test_key";
    assert!(!keys.should_dedupe(key));
    assert!(keys.should_dedupe(key));
}

#[test]
fn dedupe_window_forgets_after_thirty_seconds() {
    let mut keys = RecentReplyKeys::new();
    assert!(!keys.check_dedupe_timestamp("k", 100));
    assert!(keys.check_dedupe_timestamp("k", 130));
    assert!(!keys.check_dedupe_timestamp("k", 131));
    assert!(!keys.check_dedupe_timestamp("", 131));
    assert!(!keys.check_dedupe_timestamp("", 131));
}

#[test]
fn reply_content_needs_text_or_image() {
    assert!(has_reply_content("hi", ""));
    assert!(has_reply_content("  ", "a photo"));
    assert!(!has_reply_content(" \n", "  "));
}

fn session(closed_at: &str, updated_at: &str, turns: i64, key: &str) -> SessionRecord {
    SessionRecord {
        session_id: "sid1".into(),
        dialogue_key: key.into(),
        closed_at: closed_at.into(),
        updated_at: updated_at.into(),
        turn_count: turns,
    }
}

#[test]
fn test_build_dialogue_key_private() {
    assert_eq!(build_dialogue_key("user1", "private", "", "qq"), "qq:private:user1");
}

#[test]
fn test_build_dialogue_key_group() {
    assert_eq!(build_dialogue_key("user1", "group", "g123", "qq"), "qq:group:g123");
}

#[test]
fn group_without_id_is_private() {
    assert_eq!(build_dialogue_key("user1", "group", "", "qq"), "qq:private:user1");
}

#[test]
fn test_format_restore_entry() {
    let s = session("2024-01-01T00:00:00", "2024-01-01T01:00:00", 3, "qq:private:u1");
    let entry = format_restore_entry(1, &s, "摘要内容");
    assert!(entry.contains("上一轮会话"));
    assert!(entry.contains("摘要内容"));
    assert!(entry.contains("3轮"));
    assert_eq!(entry, "上一轮会话（2024-01-01 00:00，3轮）：摘要内容");
}

#[test]
fn restore_entry_labels_and_missing_times() {
    let s = session("", "", 2, "k");
    assert_eq!(format_restore_entry(3, &s, "x"), "更早一轮会话2（2轮）：x");
    let s = session("", "2024-05-06T07:08:09", -1, "k");
    assert_eq!(format_restore_entry(1, &s, "x"), "上一轮会话（2024-05-06 07:08，-1轮）：x");
    assert!(restore_entry(1, &s, "").is_none());
    let e = restore_entry(2, &s, "y").unwrap();
    assert_eq!(e.metadata.turn_count, -1);
    assert!(e.content.starts_with("更早一轮会话1"));
}

#[test]
fn restore_candidates_filter_and_limit() {
    let sessions = vec![
        session("2024-01-01T00:00:00", "", 3, "k"),
        session("", "", 3, "k"),
        session("2024-01-02T00:00:00", "", 0, "k"),
        session("2024-01-03T00:00:00", "", 2, "other"),
        session("2024-01-04T00:00:00", "", 5, "k"),
        session("2024-01-05T00:00:00", "", 1, "k"),
    ];
    let picked = restore_candidates(&sessions, "k", 2);
    assert_eq!(picked.len(), 2);
    assert_eq!(picked[0].closed_at, "2024-01-01T00:00:00");
    assert_eq!(picked[1].closed_at, "2024-01-04T00:00:00");
    assert_eq!(restore_candidates(&sessions, "k", 0).len(), 1);
}

fn record(text: &str, is_bot: bool) -> SummaryRecord {
    SummaryRecord { text: text.to_string(), is_bot }
}

#[test]
fn test_build_summary_basic() {
    let service = ChatSummaryService::new();
    let records = vec![
        record("你好", false),
        record("你好呀", true),
        record("今天天气不错", false),
        record("是的，很适合出门", true),
    ];
    let summary = service.build_summary(&records);
    assert!(!summary.is_empty());
    assert!(summary.contains("你好") || summary.contains("天气"));
    assert_eq!(summary, "你好；今天天气不错");
}

#[test]
fn test_build_summary_empty() {
    let service = ChatSummaryService::new();
    assert_eq!(service.build_summary(&[]), "");
}

#[test]
fn test_build_summary_only_bot() {
    let service = ChatSummaryService::new();
    let records = vec![record("你好", true), record("有什么可以帮你的", true)];
    assert_eq!(service.build_summary(&records), "有什么可以帮你的");
}

#[test]
fn test_truncate_text() {
    let service = ChatSummaryService::new().with_max_summary_chars(10);
    let truncated = service.truncate_text("这是一段非常长的文本需要被截断", 10);
    assert!(truncated.ends_with("..."));
    assert!(truncated.chars().count() <= 10);
}

#[test]
fn test_normalize_fragment() {
    let service = ChatSummaryService::new();
    assert_eq!(service.normalize_fragment("  多个   空格   需要  合并  "), "多个 空格 需要 合并");
}

#[test]
fn test_deduplication() {
    let service = ChatSummaryService::new();
    let records = vec![record("重复消息", false), record("重复消息", false), record("新消息", false)];
    let summary = service.build_summary(&records);
    assert_eq!(summary.matches("重复消息").count(), 1);
}

#[test]
fn summary_keeps_the_latest_points_in_order() {
    let service = ChatSummaryService::new().with_max_points(2);
    let records = vec![record("一", false), record("二", false), record("三", false)];
    assert_eq!(service.build_summary(&records), "二；三");
    assert_eq!(service.get_summary(&records, Some("  缓存  ")), "缓存");
    assert_eq!(service.get_summary(&records, Some("   ")), "二；三");
    assert_eq!(ChatSummaryService::default().max_points, 3);
}

#[test]
fn test_summarize_simple_empty() {
    assert!(SimpleSummary::summarize_simple(&[]).contains("暂无"));
}

#[test]
fn test_summarize_simple_short() {
    let msgs = vec!["你好".to_string(), "你好呀".to_string()];
    assert!(SimpleSummary::summarize_simple(&msgs).contains("2条消息"));
}

#[test]
fn test_summarize_simple_long() {
    let msgs = vec![
        "今天天气很好，我们去公园散步吧。".to_string(),
        "好的，几点出发？".to_string(),
        "下午三点怎么样？".to_string(),
    ];
    let result = SimpleSummary::summarize_simple(&msgs);
    assert!(result.contains("3条消息"));
    assert_eq!(result, "共3条消息，从「今天天气很好，我们去公园散步吧。…」到「下午三点怎么样？…」");
    assert_eq!(SimpleSummary::new("m").model, "m");
}

#[test]
fn test_normalize_text() {
    let result = normalize_text("Hello 世界！Test 123");
    assert!(result.contains("hello"));
    assert!(result.contains("世界"));
    assert!(result.contains("test"));
    assert!(result.contains("123"));
    assert!(!result.contains(' '));
    assert!(!result.contains('！'));
}

#[test]
fn test_score_text_substring_match() {
    let score = ratio(score_text_parts(&normalize_text("你好"), "你好世界！"));
    assert!(score >= 0.5);
}

#[test]
fn test_score_text_no_match() {
    assert_eq!(ratio(score_text_parts(&normalize_text("xyz"), "你好")), 0.0);
}

#[test]
fn test_score_text_api() {
    let q = normalize_text("咖啡");
    assert!(ratio(score_text_parts(&q, "今天想喝咖啡")) > 0.0);
}

#[test]
fn score_parts_exact_values() {
    assert_eq!(score_text_parts("你好", "你好世界！"), (6, 12));
    assert_eq!(score_text_parts("abcd", "xxbd"), (2, 4));
    assert_eq!(score_text_parts("", "abc"), (0, 1));
}

#[test]
fn test_excerpt() {
    let result = excerpt("这是一段很长的文本用来测试截取功能", 10);
    assert!(result.chars().count() <= 10);
    assert!(result.ends_with("..."));
}

#[test]
fn test_excerpt_preserves_spaces() {
    assert_eq!(excerpt("Hello   World", 100), "Hello World");
    assert_eq!(excerpt(" a \t b\n", 100), "a b");
}

#[test]
fn test_format_entry() {
    let s = SessionRecord {
        session_id: "sid1".into(),
        dialogue_key: "qq:private:u1".into(),
        closed_at: String::new(),
        updated_at: "2024-01-01T00:01:00".into(),
        turn_count: 0,
    };
    let turn = ConversationTurn {
        turn_id: 1,
        user_message: "你好".into(),
        assistant_message: "你好呀".into(),
        timestamp: "2024-01-01T00:00:00".into(),
    };
    let result = format_entry("第一次提到相关话题", &s, &turn, 72);
    assert!(result.contains("第一次提到相关话题"));
    assert!(result.contains("你好"));
    assert!(result.contains("你当时回复"));
    assert_eq!(
        result,
        "第一次提到相关话题（2024-01-01 00:00，第1轮）：用户说“你好”；你当时回复“你好呀”"
    );
    let quiet = ConversationTurn { turn_id: 2, user_message: "嗯".into(), assistant_message: " ".into(), timestamp: String::new() };
    let s2 = SessionRecord { updated_at: String::new(), ..s };
    assert_eq!(format_entry("L", &s2, &quiet, 72), "L（第2轮）：用户说“嗯”");
}

fn scored(turn_id: i64, timestamp: &str, score_key: u64) -> ScoredTurn {
    ScoredTurn { turn_id, timestamp: timestamp.to_string(), score_key }
}

fn scored_session(id: &str, key: &str, turns: Vec<ScoredTurn>) -> ScoredSession {
    ScoredSession { session_id: id.to_string(), dialogue_key: key.to_string(), turns }
}

#[test]
fn recall_picks_first_and_best_match() {
    let sessions = vec![
        scored_session("old", "dk", vec![scored(1, "2024-01-01T10:00", 90), scored(2, "2024-01-01T10:05", 10)]),
        scored_session("other", "dk2", vec![scored(1, "2024-01-02T10:00", 99)]),
        scored_session("new", "dk", vec![scored(3, "2024-01-03T09:00", 50), scored(4, "2024-01-03T09:30", 90)]),
    ];
    let picks = pick_recall_matches("咖啡", &sessions, "dk", 40, 3);
    assert_eq!(picks.len(), 2);
    // the latest session comes first; its first turn above the minimum is the first mention
    assert_eq!((picks[0].session_id.as_str(), picks[0].turn_id), ("new", 3));
    // the best score is 90, and of the two the later stamp wins
    assert_eq!((picks[1].session_id.as_str(), picks[1].turn_id), ("new", 4));
    assert_eq!(recall_label(0), "第一次提到相关话题");
    assert_eq!(recall_label(1), "最近一次提到相关话题");
}

#[test]
fn recall_picks_respect_limit_query_and_minimum() {
    let sessions = vec![scored_session("s", "dk", vec![scored(1, "", 5), scored(2, "", 70), scored(3, "", 80)])];
    let one = pick_recall_matches("咖啡", &sessions, "dk", 60, 1);
    assert_eq!(one.len(), 1);
    assert_eq!(one[0].turn_id, 2);
    let two = pick_recall_matches("咖啡", &sessions, "dk", 60, 0);
    assert_eq!(two.len(), 1);
    assert!(pick_recall_matches("a", &sessions, "dk", 0, 5).is_empty());
    assert!(pick_recall_matches("!!", &sessions, "dk", 0, 5).is_empty());
    assert!(pick_recall_matches("咖啡", &sessions, "dk", 100, 5).is_empty());
    let same = pick_recall_matches("ab", &sessions, "dk", 80, 5);
    assert_eq!(same.len(), 1);
    assert_eq!(same[0].turn_id, 3);
}

#[test]
fn narrative_event_keeps_first_hundred_characters() {
    assert_eq!(narrative_event_text("你好", "hi"), "用户: 你好, 回复: hi");
    let long = "猫".repeat(150);
    let text = narrative_event_text(&long, "");
    assert_eq!(text, format!("用户: {}, 回复: ", "猫".repeat(100)));
}

#[test]
fn interaction_signals_skip_empty_ones() {
    assert_eq!(interaction_signals("多关心", "开心"), vec!["多关心".to_string(), "开心".to_string()]);
    assert_eq!(interaction_signals("", "开心"), vec!["开心".to_string()]);
    assert!(interaction_signals("", "").is_empty());
}
