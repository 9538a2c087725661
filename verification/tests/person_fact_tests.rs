use xueli_memory::core_types::{MemoryItem, MemoryType};
use xueli_memory::person_fact_service::{
    fact_drafts, infer_fact_category, normalize_text, should_use_as_fact,
};

fn memory(id: &str, content: &str, memory_type: MemoryType) -> MemoryItem {
    MemoryItem {
        id: id.to_string(),
        user_id: "u1".to_string(),
        content: content.to_string(),
        memory_type,
        importance: 50,
        created_at: 0,
        last_accessed_at: 0,
        access_count: 0,
    }
}

#[test]
fn fact_normalization_keeps_only_alphanumerics() {
    assert_eq!(normalize_text("Likes Tea!"), "likestea");
    assert_eq!(normalize_text("喜欢 咖啡。"), "喜欢咖啡");
    assert_eq!(normalize_text("?!"), "");
}

#[test]
fn short_or_event_memories_are_no_facts() {
    assert!(!should_use_as_fact(&memory("a", "  ab  ", MemoryType::Fact)));
    assert!(!should_use_as_fact(&memory("b", "went hiking", MemoryType::Event)));
    assert!(should_use_as_fact(&memory("c", "abc", MemoryType::Opinion)));
    // one CJK character is three bytes
    assert!(should_use_as_fact(&memory("d", "猫", MemoryType::Preference)));
}

#[test]
fn fact_category_follows_memory_type() {
    assert_eq!(infer_fact_category(&memory("a", "x", MemoryType::Preference)), "preference");
    assert_eq!(infer_fact_category(&memory("a", "x", MemoryType::Fact)), "profile");
    assert_eq!(infer_fact_category(&memory("a", "x", MemoryType::Opinion)), "boundary");
    assert_eq!(infer_fact_category(&memory("a", "x", MemoryType::Relationship)), "background");
    assert_eq!(infer_fact_category(&memory("a", "x", MemoryType::Event)), "plan");
}

#[test]
fn fact_drafts_skip_repeats_and_unusable_memories() {
    let memories = vec![
        memory("m1", "  Likes tea ", MemoryType::Preference),
        memory("m2", "likes TEA!", MemoryType::Preference),
        memory("m3", "likes tea", MemoryType::Fact),
        memory("m4", "went hiking", MemoryType::Event),
        memory("m5", "!!!", MemoryType::Fact),
        memory("m6", "ab", MemoryType::Fact),
    ];
    let drafts = fact_drafts("u1", &memories);
    assert_eq!(drafts.len(), 2);
    assert_eq!(drafts[0].id, "u1_preference_likestea");
    assert_eq!(drafts[0].fact_text, "Likes tea");
    assert_eq!(drafts[0].category, "preference");
    assert_eq!(drafts[0].user_id, "u1");
    assert_eq!(drafts[0].source, 0);
    assert_eq!(drafts[1].id, "u1_profile_likestea");
    assert_eq!(drafts[1].source, 2);
}

#[test]
fn fact_drafts_of_nothing_is_empty() {
    assert!(fact_drafts("u1", &[]).is_empty());
}
