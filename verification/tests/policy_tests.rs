use xueli_memory::core_types::{MemoryItem, MemoryType};
use xueli_memory::extraction::reflection::topic_overlap_parts;
use xueli_memory::internal::access_policy::MemoryAccessPolicy;
use xueli_memory::memory_dispute_resolver::{
    MemoryDisputeConfig, MemoryDisputeDecision, MemoryDisputeResolver, ReflectionPayload,
};
use xueli_memory::retrieval::prompt_context::assemble_prompt_context;
use xueli_memory::retrieval::coordinator::{
    budget_for_intensity, build_prompt_text, dedupe_dynamic_entries, dynamic_scene_bucket,
    dynamic_similarity_parts, emotion_is_complementary, insert_recall_instruction,
    is_duplicate_dynamic_entry, memory_to_prompt_entry, normalize_dynamic_text, trim_entries,
    PromptBudgets, PromptEntry, PromptSections,
};

/// Order key of a confidence in [0, 1]: the bits of the clamped value.
fn key(c: f64) -> u64 {
    c.clamp(0.0, 1.0).to_bits()
}

fn test_config() -> MemoryDisputeConfig {
    MemoryDisputeConfig {
        enabled: true,
        high_confidence_threshold: key(0.75),
        normal_confidence_threshold: key(0.45),
    }
}

fn payload(has_conflict: bool, action: &str, confidence: f64) -> ReflectionPayload {
    ReflectionPayload {
        has_conflict,
        action: action.to_string(),
        confidence: key(confidence),
        conflict_type: "none".to_string(),
        summary: String::new(),
        reason: String::new(),
        targets: vec![],
        evidence: vec![],
    }
}

#[test]
fn test_resolve_ignore_no_conflict() {
    let resolver = MemoryDisputeResolver::new(test_config());
    assert_eq!(resolver.resolve(&payload(false, "keep", 0.9)).level, "ignore");
}

#[test]
fn test_resolve_ignore_empty_action() {
    let resolver = MemoryDisputeResolver::new(test_config());
    assert_eq!(resolver.resolve(&payload(true, "", 0.9)).level, "ignore");
}

#[test]
fn test_resolve_high_confidence() {
    let resolver = MemoryDisputeResolver::new(test_config());
    let d = resolver.resolve(&payload(true, "update", 0.8));
    assert_eq!(d.level, "high_confidence");
    assert_eq!(d.action, "update");
}

#[test]
fn test_resolve_normal_confidence() {
    let resolver = MemoryDisputeResolver::new(test_config());
    assert_eq!(resolver.resolve(&payload(true, "merge", 0.5)).level, "normal");
}

#[test]
fn test_resolve_low_confidence_ignored() {
    let resolver = MemoryDisputeResolver::new(test_config());
    assert_eq!(resolver.resolve(&payload(true, "delete", 0.3)).level, "ignore");
}

#[test]
fn resolve_normalises_fields() {
    let resolver = MemoryDisputeResolver::new(test_config());
    let mut p = payload(true, "  Update ", 0.8);
    p.conflict_type = "  ".into();
    p.summary = " s ".into();
    p.targets = vec!["a".into()];
    let d = resolver.resolve(&p);
    assert_eq!(d.action, "update");
    assert_eq!(d.conflict_type, "none");
    assert_eq!(d.summary, "s");
    assert_eq!(d.targets, vec!["a".to_string()]);
    let ignored = resolver.resolve(&payload(false, "update", 0.9));
    assert_eq!(ignored.confidence, key(0.9));
    assert_eq!(ignored.action, "");
}

#[test]
fn test_resolve_from_metadata() {
    let resolver = MemoryDisputeResolver::new(test_config());
    let p = ReflectionPayload {
        has_conflict: true,
        action: "update".into(),
        confidence: key(0.8),
        conflict_type: "contradiction".into(),
        summary: "旧信息与新信息冲突".into(),
        reason: "新来源更可靠".into(),
        targets: vec!["mem_1".into(), "mem_2".into()],
        evidence: vec!["用户本人确认".into()],
    };
    let decision = resolver.resolve_from_memory_metadata(Some(&p));
    assert_eq!(decision.level, "high_confidence");
    assert_eq!(decision.action, "update");
    assert_eq!(decision.conflict_type, "contradiction");
    assert_eq!(decision.targets, vec!["mem_1", "mem_2"]);
}

#[test]
fn metadata_decision_is_the_whole_resolve_decision() {
    let resolver = MemoryDisputeResolver::new(test_config());
    let mut p = payload(true, "  Merge ", 0.5);
    p.summary = "  摘要 ".into();
    p.reason = " 原因".into();
    p.evidence = vec!["证据".into()];
    let d = resolver.resolve_from_memory_metadata(Some(&p));
    assert_eq!(d.level, "normal");
    assert_eq!(d.action, "merge");
    assert_eq!(d.conflict_type, "none");
    assert_eq!(d.summary, "摘要");
    assert_eq!(d.reason, "原因");
    assert_eq!(d.evidence, vec!["证据"]);
}

#[test]
fn test_resolve_from_metadata_empty() {
    let resolver = MemoryDisputeResolver::new(test_config());
    assert_eq!(resolver.resolve_from_memory_metadata(None).level, "ignore");
}

#[test]
fn test_default_decision() {
    let d = MemoryDisputeDecision::default();
    assert_eq!(d.level, "ignore");
    assert_eq!(d.confidence, key(0.0));
}

#[test]
fn test_topic_overlap() {
    let overlap = |a: &str, b: &str| {
        let (n, d) = topic_overlap_parts(a, b);
        n as f64 / d as f64
    };
    assert!(overlap("喜欢喝咖啡", "讨厌喝咖啡") > 0.3);
    assert_eq!(overlap("咖啡", "旅游"), 0.0);
    assert_eq!(overlap("", ""), 0.0);
    assert_eq!(topic_overlap_parts("喜欢喝咖啡", "讨厌喝咖啡"), (3, 5));
    assert_eq!(topic_overlap_parts("aab", "abc"), (2, 2));
}

#[test]
fn test_emotion_is_complementary() {
    assert!(emotion_is_complementary("伤心", "委屈"));
    assert!(emotion_is_complementary("委屈", "伤心"));
    assert!(!emotion_is_complementary("伤心", "开心"));
}

#[test]
fn test_normalize_dynamic_text() {
    let norm = normalize_dynamic_text("用户喜欢喝 咖啡！");
    assert!(norm.contains("用户喜欢喝咖啡") || norm.contains("用户喜欢喝咖啡！".to_lowercase().as_str()));
    assert_eq!(norm, "用户喜欢喝咖啡");
    assert_eq!(normalize_dynamic_text("！？ ！"), "！？！");
}

#[test]
fn test_dynamic_text_similarity() {
    let sim = |a: &str, b: &str| {
        let (n, d) = dynamic_similarity_parts(a, b);
        n as f64 / d as f64
    };
    assert!((sim("用户喜欢喝咖啡", "用户喜欢喝咖啡") - 1.0).abs() < 0.001);
    let s2 = sim("用户喜欢咖啡", "用户讨厌咖啡");
    assert!(s2 < 1.0 && s2 > 0.0);
    assert_eq!(dynamic_similarity_parts("用户喜欢咖啡", "用户讨厌咖啡"), (2, 5));
    assert_eq!(dynamic_similarity_parts("a", "a"), (1, 1));
    assert_eq!(dynamic_similarity_parts("a", "ab"), (1, 2));
    assert_eq!(dynamic_similarity_parts("", "ab"), (0, 1));
}

#[test]
fn test_budget_for_intensity() {
    let budgets = PromptBudgets::default();
    assert_eq!(budget_for_intensity(&budgets, "dynamic", "normal"), 420);
    assert_eq!(budget_for_intensity(&budgets, "dynamic", "high"), 588);
    assert_eq!(budget_for_intensity(&budgets, "dynamic", "off"), 0);
    assert_eq!(budget_for_intensity(&budgets, "session_restore", "light"), 156);
    assert_eq!(budget_for_intensity(&budgets, "shared", "normal"), 0);
}

fn entry(content: &str, owner: &str, score: u64) -> PromptEntry {
    PromptEntry {
        content: content.into(),
        memory_id: format!("id_{}", content),
        owner_user_id: owner.into(),
        score,
        source_message_type: String::new(),
        source_group_id: String::new(),
    }
}

fn item(id: &str, user: &str, content: &str) -> MemoryItem {
    MemoryItem {
        id: id.into(),
        user_id: user.into(),
        content: content.into(),
        memory_type: MemoryType::Fact,
        importance: 7,
        created_at: 0,
        last_accessed_at: 0,
        access_count: 0,
    }
}

#[test]
fn shared_entries_name_their_owner() {
    let e = memory_to_prompt_entry(&item("m1", "u2", "群规"), "shared", "u1");
    assert_eq!(e.content, "[来源用户 u2] 群规");
    assert_eq!(e.score, 7);
    let own = memory_to_prompt_entry(&item("m1", "u1", "群规"), "shared", "u1");
    assert_eq!(own.content, "群规");
    let other_section = memory_to_prompt_entry(&item("m1", "u2", "群规"), "dynamic", "u1");
    assert_eq!(other_section.content, "群规");
}

#[test]
fn trim_entries_respects_budget() {
    let es = vec![entry("一二三四五", "u", 1), entry("  ", "u", 1), entry("六七", "u", 1), entry("八九十", "u", 1)];
    let kept = trim_entries(&es, 7);
    assert_eq!(kept.len(), 2);
    assert_eq!(kept[1].content, "六七");
    let first_only = trim_entries(&es, 2);
    assert_eq!(first_only.len(), 1);
}

#[test]
fn scene_buckets() {
    let ctx = MemoryAccessPolicy::build_context("u1", "group", "g1", "user", "qq", 9);
    let mut e = entry("x", "u1", 0);
    e.source_group_id = "g1".into();
    assert_eq!(dynamic_scene_bucket(&e, &ctx), 4);
    e.owner_user_id = "u2".into();
    assert_eq!(dynamic_scene_bucket(&e, &ctx), 3);
    e.source_group_id = String::new();
    e.source_message_type = "GROUP".into();
    assert_eq!(dynamic_scene_bucket(&e, &ctx), 1);
    e.owner_user_id = " u1 ".into();
    assert_eq!(dynamic_scene_bucket(&e, &ctx), 2);
    e.source_message_type = String::new();
    assert_eq!(dynamic_scene_bucket(&e, &ctx), 0);
}

#[test]
fn dynamic_dedupe_and_order() {
    let ctx = MemoryAccessPolicy::build_context("u1", "private", "", "user", "qq", 9);
    let mut mine = entry("用户养了一只猫", "u1", 1);
    mine.source_message_type = "private".into();
    let es = vec![
        entry("用户喜欢喝咖啡", "u2", 9),
        entry("用户喜欢喝咖啡！", "u2", 8),
        mine,
        entry("完全不同的内容", "u2", 5),
    ];
    assert!(is_duplicate_dynamic_entry("用户喜欢喝咖啡！", &es[..1]));
    let out = dedupe_dynamic_entries(&es, &ctx, 10, true);
    let order: Vec<&str> = out.iter().map(|e| e.content.as_str()).collect();
    assert_eq!(order, vec!["用户养了一只猫", "用户喜欢喝咖啡", "完全不同的内容"]);
    let plain = dedupe_dynamic_entries(&es, &ctx, 2, false);
    assert_eq!(plain.len(), 2);
    assert_eq!(plain[1].content, "用户喜欢喝咖啡！");
    assert_eq!(dedupe_dynamic_entries(&es, &ctx, 0, true).len(), 1);
}

#[test]
fn prompt_text_sections() {
    let sections = PromptSections {
        user_important: vec![entry("用户喜欢喝咖啡", "u1", 1)],
        addressing: vec![],
        shared: vec![],
        session_restore: vec![],
        precise_recall: vec![entry("旧对话", "u1", 1)],
        dynamic: vec![entry("a", "u1", 1), entry("b", "u1", 1)],
    };
    let text = build_prompt_text(&sections);
    assert_eq!(
        text,
        "=== 当前用户重要记忆 ===\n1. 用户喜欢喝咖啡\n\n=== 相关旧对话精准定位 ===\n1. 旧对话\n\n=== 相关过往信息（请用你自己的话自然融入回复，不要逐字引用） ===\n1. a\n2. b"
    );
    let with = insert_recall_instruction(&text, "提示");
    assert!(with.contains("提示\n\n=== 相关旧对话精准定位 ==="));
    assert_eq!(insert_recall_instruction(&text, ""), text);
    assert_eq!(insert_recall_instruction("no marker", "提示"), "no marker");
    let empty = PromptSections {
        user_important: vec![],
        addressing: vec![],
        shared: vec![],
        session_restore: vec![],
        precise_recall: vec![],
        dynamic: vec![],
    };
    assert_eq!(build_prompt_text(&empty), "");
}

#[test]
fn prompt_context_assembles_sections_ids_and_text() {
    let policy = MemoryAccessPolicy::new();
    let budgets = PromptBudgets::default();
    let important = vec![
        item("m1", "u1", "用户喜欢猫"),
        item("m2", "u2", "  用户喜欢猫 "),
        item("m3", "u1", "用户住在杭州"),
    ];
    let restore = vec![entry("上次聊到旅行", "u1", 1)];
    let precise = vec![entry("问过天气", "u1", 1)];
    let dynamic = vec![entry("喜欢喝茶", "u1", 2), entry("喜欢喝茶", "u1", 3)];
    let r = assemble_prompt_context(
        &policy,
        &budgets,
        "u1",
        &important,
        &restore,
        &precise,
        &dynamic,
        (Some(false), None, Some(true)),
        (None, Some("off"), Some("high")),
    );
    // duplicates (trimmed, lower-cased) are dropped, the first kept
    let ui: Vec<&str> = r.sections.user_important.iter().map(|e| e.memory_id.as_str()).collect();
    assert_eq!(ui, vec!["m1", "m3"]);
    assert!(r.sections.addressing.is_empty());
    assert!(r.sections.shared.is_empty());
    // switched off
    assert!(r.sections.session_restore.is_empty());
    // intensity off gives a budget of 0, which still keeps the first entry
    assert_eq!(r.sections.precise_recall.len(), 1);
    assert_eq!(r.sections.dynamic.len(), 1);
    assert_eq!(r.used_memory_ids, vec!["m1", "m3", "id_喜欢喝茶"]);
    assert_eq!(r.prompt_text, build_prompt_text(&r.sections));
    assert!(r.prompt_text.starts_with("=== 当前用户重要记忆 ===\n1. 用户喜欢猫\n2. 用户住在杭州"));
}
