use xueli_memory::internal::access_policy::MemoryAccessPolicy;
use xueli_memory::retrieval::coordinator::PromptEntry;

fn entry(id: &str, content: &str) -> PromptEntry {
    PromptEntry {
        content: content.to_string(),
        memory_id: id.to_string(),
        owner_user_id: "u1".to_string(),
        score: 0,
        source_message_type: "private".to_string(),
        source_group_id: String::new(),
    }
}

#[test]
fn prompt_entries_deduped_by_trimmed_lowercase_content() {
    let policy = MemoryAccessPolicy::new();
    let entries = vec![
        entry("a", " Tea "),
        entry("b", "tea"),
        entry("c", "   "),
        entry("d", "Coffee"),
        entry("e", "TEA"),
    ];
    let kept = policy.dedupe_prompt_entries(&entries);
    let ids: Vec<&str> = kept.iter().map(|e| e.memory_id.as_str()).collect();
    assert_eq!(ids, vec!["a", "d"]);
    assert!(policy.dedupe_prompt_entries(&[]).is_empty());
}
