use xueli_memory::core_types::{MemoryItem, MemoryPatch, MemoryType};
use xueli_memory::extraction::patch_merger::{ordinary_store_target, plan_patch_merge, PatchMerger};

fn make_item(id: &str, content: &str) -> MemoryItem {
    MemoryItem {
        id: id.to_string(),
        user_id: "u1".to_string(),
        content: content.to_string(),
        memory_type: MemoryType::Fact,
        importance: 50,
        created_at: 0,
        last_accessed_at: 0,
        access_count: 0,
    }
}

fn patch(add: Vec<MemoryItem>) -> MemoryPatch {
    MemoryPatch { add, update: vec![], remove: vec![] }
}

#[test]
fn test_merge_no_duplicates() {
    let merger = PatchMerger::new();
    let existing = vec![patch(vec![make_item("a", "用户喜欢Python")])];
    let new_patch = patch(vec![make_item("b", "用户住在北京")]);
    let result = merger.merge(&existing, &new_patch).unwrap();
    assert_eq!(result.add.len(), 1);
    assert!(result.add[0].content.contains("北京"));
}

#[test]
fn test_merge_duplicates_filtered() {
    let merger = PatchMerger::new();
    let existing = vec![patch(vec![make_item("a", "用户喜欢喝咖啡，每天早上都要喝一杯")])];
    let new_patch = patch(vec![make_item("b", "用户喜欢喝咖啡")]);
    let result = merger.merge(&existing, &new_patch).unwrap();
    assert!(result.add.is_empty());
}

#[test]
fn test_merge_empty_patches() {
    let merger = PatchMerger::new();
    let existing: Vec<MemoryPatch> = vec![];
    let new_patch = patch(vec![]);
    let result = merger.merge(&existing, &new_patch).unwrap();
    assert!(result.add.is_empty());
    assert!(result.update.is_empty());
    assert!(result.remove.is_empty());
}

#[test]
fn merge_into_nothing_keeps_every_addition() {
    let merger = PatchMerger::new();
    let new_patch = MemoryPatch {
        add: vec![make_item("a", "用户喜欢喝茶"), make_item("b", "用户住在上海")],
        update: vec![make_item("c", "更新")],
        remove: vec!["old".to_string()],
    };
    let result = merger.merge(&[], &new_patch).unwrap();
    assert_eq!(result.add.len(), 2);
    assert_eq!(result.add[0].id, "a");
    assert_eq!(result.add[1].id, "b");
    assert_eq!(result.update.len(), 1);
    assert_eq!(result.remove, vec!["old".to_string()]);
}

#[test]
fn merging_twice_is_merging_once() {
    let merger = PatchMerger::new();
    let existing = vec![patch(vec![make_item("a", "用户喜欢喝咖啡，每天早上都要喝一杯")])];
    let new_patch = patch(vec![make_item("b", "用户喜欢喝咖啡"), make_item("c", "用户住在北京")]);
    let once = merger.merge(&existing, &new_patch).unwrap();
    let twice = merger.merge(&existing, &once).unwrap();
    assert_eq!(once.add.len(), 1);
    assert_eq!(twice.add.len(), 1);
    assert_eq!(twice.add[0].id, once.add[0].id);
}

#[test]
fn test_is_duplicate_similar() {
    let merger = PatchMerger::new();
    assert!(merger.is_duplicate("用户喜欢喝咖啡", &["用户喜欢喝咖啡，每天早上都要喝"]));
}

#[test]
fn test_is_duplicate_different() {
    let merger = PatchMerger::new();
    assert!(!merger.is_duplicate("用户喜欢喝咖啡", &["用户住在北京"]));
}

#[test]
fn is_duplicate_takes_multibyte_content() {
    let merger = PatchMerger::new();
    // one ASCII byte then three-byte characters: no cut falls inside a character
    assert!(merger.is_duplicate("a用户喜欢喝咖啡每天早上喝", &["a用户喜欢喝咖啡每天早上喝"]));
    // 29 ASCII characters then two three-byte characters
    assert!(merger.is_duplicate("abcdefghijklmnopqrstuvwxyzABC用户", &["abcdefghijklmnopqrstuvwxyzABC用户"]));
}

#[test]
fn is_duplicate_compares_thirty_characters() {
    let merger = PatchMerger::new();
    let content = format!("{}{}", "甲".repeat(10), "乙".repeat(30));
    let existing = format!("{}{}", "甲".repeat(10), "丙".repeat(20));
    // the first 30 characters share only 10 positions with the known memory
    assert!(!merger.is_duplicate(&content, &[existing.as_str()]));
    let same_start = format!("{}{}", "甲".repeat(30), "乙".repeat(10));
    let known = "甲".repeat(30);
    assert!(merger.is_duplicate(&same_start, &[known.as_str()]));
}

#[test]
fn test_is_suppressed_memory_superseded() {
    assert!(PatchMerger::is_suppressed_memory(Some("superseded")));
}

#[test]
fn test_is_suppressed_memory_contextualized() {
    assert!(PatchMerger::is_suppressed_memory(Some("contextualized")));
}

#[test]
fn test_is_suppressed_memory_active() {
    assert!(!PatchMerger::is_suppressed_memory(Some("active")));
}

#[test]
fn test_is_suppressed_memory_no_status() {
    assert!(!PatchMerger::is_suppressed_memory(None));
}

#[test]
fn test_resolve_new_memory_patch_status_prefer_existing() {
    assert_eq!(PatchMerger::resolve_new_memory_patch_status("prefer_existing"), "superseded");
}

#[test]
fn test_resolve_new_memory_patch_status_prefer_new() {
    assert_eq!(PatchMerger::resolve_new_memory_patch_status("prefer_new"), "active_patch");
}

#[test]
fn test_resolve_new_memory_patch_status_keep_both() {
    assert_eq!(
        PatchMerger::resolve_new_memory_patch_status("keep_both_prefer_recent"),
        "active_patch"
    );
}

#[test]
fn test_resolve_new_memory_patch_status_merge_context() {
    assert_eq!(PatchMerger::resolve_new_memory_patch_status("merge_context"), "active_patch");
}

#[test]
fn test_resolve_new_memory_patch_status_unknown() {
    assert_eq!(PatchMerger::resolve_new_memory_patch_status("unknown_action"), "conflict_reflected");
}

#[test]
fn test_resolve_existing_memory_patch_status_prefer_new() {
    assert_eq!(PatchMerger::resolve_existing_memory_patch_status("prefer_new"), "superseded");
}

#[test]
fn test_resolve_existing_memory_patch_status_keep_both() {
    assert_eq!(
        PatchMerger::resolve_existing_memory_patch_status("keep_both_prefer_recent"),
        "superseded"
    );
}

#[test]
fn test_resolve_existing_memory_patch_status_merge_context() {
    assert_eq!(PatchMerger::resolve_existing_memory_patch_status("merge_context"), "contextualized");
}

#[test]
fn test_resolve_existing_memory_patch_status_unknown() {
    assert_eq!(PatchMerger::resolve_existing_memory_patch_status("prefer_existing"), "active");
}

#[test]
fn patch_status_actions_ignore_case() {
    assert_eq!(PatchMerger::resolve_new_memory_patch_status("PREFER_EXISTING"), "superseded");
    assert_eq!(PatchMerger::resolve_existing_memory_patch_status("Merge_Context"), "contextualized");
}

#[test]
fn ordinary_store_target_follows_the_action() {
    assert_eq!(ordinary_store_target("prefer_new"), (true, false));
    assert_eq!(ordinary_store_target("keep_both_prefer_recent"), (true, false));
    assert_eq!(ordinary_store_target("prefer_existing"), (false, true));
    assert_eq!(ordinary_store_target("merge_context"), (false, false));
    // compared as given, not lower-cased
    assert_eq!(ordinary_store_target("PREFER_NEW"), (false, false));
}

#[test]
fn patch_merge_plan_sets_statuses_and_relations() {
    let plan = plan_patch_merge("m_new", "m_old", "Prefer_New");
    assert_eq!(plan.new_status, "active_patch");
    assert_eq!(plan.existing_status, "superseded");
    assert_eq!(plan.new_relation, "reflected_against_m_old");
    assert_eq!(plan.existing_relation, "reflected_against_m_new");
    assert!(!plan.store_existing && !plan.store_new);
    let kept = plan_patch_merge("a", "b", "prefer_existing");
    assert_eq!(kept.new_status, "superseded");
    assert_eq!(kept.existing_status, "active");
    assert!(kept.store_new && !kept.store_existing);
}
