use xueli_memory::core_types::{MemoryItem, MemoryType};
use xueli_memory::internal::background::{insight_from, insight_prompt, insight_prompt_at};

const HOUR: i64 = 3_600_000;
const DAY: i64 = 24 * HOUR;

fn memory(content: &str, created_at: i64) -> MemoryItem {
    MemoryItem {
        id: content.to_string(),
        user_id: "u1".to_string(),
        content: content.to_string(),
        memory_type: MemoryType::Fact,
        importance: 1,
        created_at,
        last_accessed_at: created_at,
        access_count: 0,
    }
}

#[test]
fn insight_prompt_lists_recent_memories_latest_first() {
    let now = 10 * DAY;
    let memories = vec![
        memory("old", 0),
        memory("a", 3 * DAY),
        memory("b", 9 * DAY),
        memory("c", 10 * DAY - HOUR),
    ];
    let prompt = insight_prompt_at(&memories, now).expect("three recent memories");
    assert_eq!(
        prompt,
        "【近期记忆】\n- [1970-01-10] c\n- [1970-01-10] b\n- [1970-01-04] a"
    );
}

#[test]
fn insight_prompt_needs_three_recent_memories() {
    let now = 30 * DAY;
    assert!(insight_prompt_at(&[memory("a", now), memory("b", now)], now).is_none());
    let memories = vec![memory("a", now), memory("b", now), memory("old", 0)];
    assert!(insight_prompt_at(&memories, now).is_none());
    // 168 whole hours ago is still recent, 169 is not
    let edge = vec![
        memory("a", now - 168 * HOUR - (HOUR - 1)),
        memory("b", now),
        memory("c", now),
    ];
    assert!(insight_prompt_at(&edge, now).is_some());
    let past = vec![memory("a", now - 169 * HOUR), memory("b", now), memory("c", now)];
    assert!(insight_prompt_at(&past, now).is_none());
}

#[test]
fn insight_prompt_keeps_twenty_lines() {
    let now = 5 * DAY;
    let memories: Vec<MemoryItem> = (0..25).map(|i| memory(&format!("m{i}"), now - i)).collect();
    let prompt = insight_prompt_at(&memories, now).expect("recent memories");
    let lines: Vec<&str> = prompt.lines().collect();
    assert_eq!(lines.len(), 21);
    assert!(lines[1].ends_with("] m24"));
    assert!(lines[20].ends_with("] m5"));
}

#[test]
fn insight_prompt_now_reads_the_clock() {
    assert!(insight_prompt(&[memory("a", 0)]).is_none());
}

/// Order key of a confidence in [0, 1]: the bits of the clamped value.
fn key(c: f64) -> u64 {
    c.clamp(0.0, 1.0).to_bits()
}

#[test]
fn test_parse_insight_decisions() {
    // positive
    assert_eq!(
        insight_from(Some(true), Some("用户对技术有深层兴趣".to_string()), key(0.85), key(0.7)).as_deref(),
        Some("用户对技术有深层兴趣")
    );
    // negative
    assert!(insight_from(Some(false), Some(String::new()), key(0.1), key(0.7)).is_none());
    // low confidence
    assert!(insight_from(Some(true), Some("test".to_string()), key(0.5), key(0.7)).is_none());
    // empty content
    assert!(insight_from(Some(true), Some("  ".to_string()), key(0.8), key(0.7)).is_none());
    // missing fields
    assert!(insight_from(None, Some("x".to_string()), key(0.9), key(0.7)).is_none());
    assert!(insight_from(Some(true), None, key(0.9), key(0.7)).is_none());
    assert_eq!(insight_from(Some(true), Some(" x ".to_string()), key(0.7), key(0.7)).as_deref(), Some("x"));
}

#[test]
fn insight_prompt_dates_are_gregorian_utc_days() {
    let now: i64 = 1_709_251_199_000; // 2024-02-29T23:59:59Z
    let memories = vec![
        memory("start", now - 6 * DAY),   // 2024-02-23T23:59:59Z
        memory("mid", 1_708_992_000_000), // 2024-02-27T00:00:00Z
        memory("leap", now),
    ];
    let prompt = insight_prompt_at(&memories, now).expect("three recent memories");
    assert_eq!(
        prompt,
        "【近期记忆】\n- [2024-02-29] leap\n- [2024-02-27] mid\n- [2024-02-23] start"
    );
}
