use xueli_memory::core_types::{ChatScope, MemoryItem, MemoryType};
use xueli_memory::internal::access_policy::{
    MemoryAccessContext, MemoryAccessPolicy, MemoryRecord, MemoryVisibility, RecordMetadata,
};
use xueli_memory::str_map::StrMap;
use xueli_memory::text::chars_of;

fn make_item(content: &str, importance: u64, mt: MemoryType) -> MemoryItem {
    MemoryItem {
        id: format!("id_{}", content),
        user_id: "u1".into(),
        content: content.into(),
        memory_type: mt,
        importance,
        created_at: 0,
        last_accessed_at: 0,
        access_count: 0,
    }
}

fn scope(pairs: &[(&str, &str)]) -> StrMap<String> {
    let mut m = StrMap::new();
    for (k, v) in pairs {
        m.insert(chars_of(k), v.to_string());
    }
    m
}

fn meta(category: Option<&str>, tags: &[&str]) -> RecordMetadata {
    RecordMetadata {
        content_category: category.map(|c| c.to_string()),
        visibility: None,
        tags: tags.iter().map(|t| t.to_string()).collect(),
    }
}

#[test]
fn test_filter_accessible_group_blocks_opinion() {
    let policy = MemoryAccessPolicy::new();
    let items = vec![make_item("事实A", 80, MemoryType::Fact), make_item("观点B", 70, MemoryType::Opinion)];
    let filtered = policy.filter_accessible(&items, &ChatScope::Group("g1".into()));
    assert_eq!(filtered.len(), 1);
    assert_eq!(filtered[0].content, "事实A");
}

#[test]
fn test_filter_accessible_private_allows_all() {
    let policy = MemoryAccessPolicy::new();
    let items = vec![
        make_item("事实A", 80, MemoryType::Fact),
        make_item("观点B", 70, MemoryType::Opinion),
        make_item("关系C", 60, MemoryType::Relationship),
    ];
    let filtered = policy.filter_accessible(&items, &ChatScope::Private);
    assert_eq!(filtered.len(), 3);
}

#[test]
fn group_scope_sees_facts_and_events_only() {
    let policy = MemoryAccessPolicy::default();
    let g = ChatScope::Group("g".into());
    for (mt, visible) in [
        (MemoryType::Fact, true),
        (MemoryType::Event, true),
        (MemoryType::Preference, false),
        (MemoryType::Opinion, false),
        (MemoryType::Relationship, false),
    ] {
        let m = make_item("x", 1, mt);
        assert_eq!(policy.is_accessible(&m, &g), visible);
        assert!(policy.is_accessible(&m, &ChatScope::Private));
    }
}

#[test]
fn test_dedupe_entries() {
    let items = vec![make_item("一样的内容", 50, MemoryType::Fact), make_item("一样的内容", 90, MemoryType::Fact)];
    let deduped = MemoryAccessPolicy::dedupe_entries(&items);
    assert_eq!(deduped.len(), 1);
    assert_eq!(deduped[0].importance, 90);
}

#[test]
fn dedupe_keeps_first_of_top_importance_and_sorts() {
    let mut a = make_item("Coffee ", 70, MemoryType::Fact);
    a.id = "first".into();
    let mut b = make_item(" coffee", 70, MemoryType::Fact);
    b.id = "second".into();
    let c = make_item("tea", 95, MemoryType::Fact);
    let d = make_item("coffee", 10, MemoryType::Fact);
    let deduped = MemoryAccessPolicy::dedupe_entries(&[a, b, c, d]);
    assert_eq!(deduped.len(), 2);
    assert_eq!(deduped[0].content, "tea");
    assert_eq!(deduped[1].id, "first");
}

#[test]
fn sort_by_importance_is_stable_and_descending() {
    let mut items = vec![
        make_item("a", 10, MemoryType::Fact),
        make_item("b", 30, MemoryType::Fact),
        make_item("c", 10, MemoryType::Fact),
        make_item("d", 30, MemoryType::Fact),
        make_item("e", 20, MemoryType::Fact),
    ];
    MemoryAccessPolicy::sort_by_importance(&mut items);
    let order: Vec<&str> = items.iter().map(|m| m.content.as_str()).collect();
    assert_eq!(order, vec!["b", "d", "e", "a", "c"]);
    let before: Vec<String> = items.iter().map(|m| m.content.clone()).collect();
    MemoryAccessPolicy::sort_by_importance(&mut items);
    let after: Vec<String> = items.iter().map(|m| m.content.clone()).collect();
    assert_eq!(before, after);
}

#[test]
fn test_build_context() {
    let ctx = MemoryAccessPolicy::build_context("userA", "group", "g1", "group", "qq", 14);
    assert_eq!(ctx.requester_user_id, "userA");
    assert_eq!(ctx.message_type, "group");
    assert_eq!(ctx.group_id, "g1");
    assert_eq!(ctx.read_scope, "group");
    assert_eq!(ctx.platform, "qq");
    assert_eq!(ctx.hour_of_day, 14);
}

#[test]
fn test_normalize_category_addressing() {
    let policy = MemoryAccessPolicy::new();
    assert_eq!(policy._normalize_category("请叫我小明", None), "addressing_preference");
    assert_eq!(policy._normalize_category("你可以称呼我老王", None), "addressing_preference");
}

#[test]
fn test_normalize_category_group_rule_via_tags() {
    let policy = MemoryAccessPolicy::new();
    let m = meta(None, &["group_rule", "important"]);
    assert_eq!(policy._normalize_category("某规则", Some(&m)), "group_rule");
}

#[test]
fn test_normalize_category_bot_rule_via_tags() {
    let policy = MemoryAccessPolicy::new();
    let m = meta(None, &["bot_rule"]);
    assert_eq!(policy._normalize_category("某规则", Some(&m)), "bot_rule");
}

#[test]
fn test_normalize_category_public_rule_via_tags() {
    let policy = MemoryAccessPolicy::new();
    let m = meta(None, &["public_rule"]);
    assert_eq!(policy._normalize_category("某规则", Some(&m)), "public_rule");
}

#[test]
fn normalize_category_tags_ignore_case() {
    let policy = MemoryAccessPolicy::new();
    let m = meta(None, &["misc", "Group_Rule"]);
    assert_eq!(policy._normalize_category("某规则", Some(&m)), "group_rule");
}

#[test]
fn test_normalize_category_from_content_category() {
    let policy = MemoryAccessPolicy::new();
    let m = meta(Some("event"), &[]);
    assert_eq!(policy._normalize_category("某事发生", Some(&m)), "event");
}

#[test]
fn test_normalize_category_generic() {
    let policy = MemoryAccessPolicy::new();
    assert_eq!(policy._normalize_category("今天天气不错", None), "generic");
}

#[test]
fn test_normalize_visibility_addressing() {
    let policy = MemoryAccessPolicy::new();
    assert_eq!(policy._normalize_visibility("addressing_preference"), MemoryVisibility::Private);
}

#[test]
fn test_normalize_visibility_group_rule() {
    let policy = MemoryAccessPolicy::new();
    assert_eq!(policy._normalize_visibility("group_rule"), MemoryVisibility::Shared);
}

#[test]
fn test_normalize_visibility_bot_rule() {
    let policy = MemoryAccessPolicy::new();
    assert_eq!(policy._normalize_visibility("bot_rule"), MemoryVisibility::Shared);
}

#[test]
fn test_normalize_visibility_public_rule() {
    let policy = MemoryAccessPolicy::new();
    assert_eq!(policy._normalize_visibility("public_rule"), MemoryVisibility::Shared);
}

#[test]
fn test_normalize_memory_record_addressing() {
    let policy = MemoryAccessPolicy::new();
    let record = MemoryRecord {
        content: "请叫我杰克".into(),
        user_id: Some("userA".into()),
        group_id: None,
        metadata: None,
    };
    let result = policy.normalize_memory_record(&record);
    assert_eq!(result.content_category, "addressing_preference");
    assert_eq!(result.visibility, MemoryVisibility::Private);
    let scope = &result.applicability_scope;
    assert_eq!(scope.get(&chars_of("kind")).map(|s| s.as_str()), Some("self_only"));
    assert_eq!(scope.get(&chars_of("user_id")).map(|s| s.as_str()), Some("userA"));
}

#[test]
fn test_normalize_memory_record_group_rule() {
    let policy = MemoryAccessPolicy::new();
    let record = MemoryRecord {
        content: "群规：禁止广告".into(),
        user_id: None,
        group_id: Some("g123".into()),
        metadata: Some(meta(None, &["group_rule"])),
    };
    let result = policy.normalize_memory_record(&record);
    assert_eq!(result.content_category, "group_rule");
    assert_eq!(result.visibility, MemoryVisibility::Shared);
    let scope = &result.applicability_scope;
    assert_eq!(scope.get(&chars_of("kind")).map(|s| s.as_str()), Some("group_members"));
    assert_eq!(scope.get(&chars_of("group_id")).map(|s| s.as_str()), Some("g123"));
}

#[test]
fn applicability_kinds_by_category() {
    let policy = MemoryAccessPolicy::new();
    for (category, kind) in [
        ("bot_rule", "public"),
        ("preference", "self_only"),
        ("opinion", "direct_users"),
        ("generic", "public"),
    ] {
        let s = policy._normalize_applicability_scope(category, &Some("u".into()), &Some("g".into()));
        assert_eq!(s.get(&chars_of("kind")).map(|s| s.as_str()), Some(kind));
        assert!(s.get(&chars_of("user_id")).is_none());
        assert!(s.get(&chars_of("group_id")).is_none());
    }
}

#[test]
fn classify_for_prompt_cases() {
    let policy = MemoryAccessPolicy::new();
    let addressing = meta(Some("addressing_preference"), &[]);
    let shared = RecordMetadata { content_category: None, visibility: Some("shared".into()), tags: vec![] };
    assert_eq!(policy.classify_for_prompt(Some(&addressing), "a", "b"), "addressing");
    assert_eq!(policy.classify_for_prompt(Some(&shared), "a", "b"), "shared");
    assert_eq!(policy.classify_for_prompt(Some(&shared), "a", "a"), "private");
    assert_eq!(policy.classify_for_prompt(None, "a", "b"), "private");
    assert!(policy.is_shared(Some(&shared)));
    assert!(!policy.is_shared(None));
    assert!(policy.is_addressing(Some(&addressing)));
}

#[test]
fn test_scope_matches_self_only_match() {
    let policy = MemoryAccessPolicy::new();
    let s = scope(&[("kind", "self_only"), ("user_id", "userA")]);
    let ctx = MemoryAccessPolicy::build_context("userA", "group", "g1", "group", "qq", 14);
    assert!(policy._scope_matches(&s, &ctx));
}

#[test]
fn test_scope_matches_self_only_no_match() {
    let policy = MemoryAccessPolicy::new();
    let s = scope(&[("kind", "self_only"), ("user_id", "userB")]);
    let ctx = MemoryAccessPolicy::build_context("userA", "group", "g1", "group", "qq", 14);
    assert!(!policy._scope_matches(&s, &ctx));
}

#[test]
fn test_scope_matches_public() {
    let policy = MemoryAccessPolicy::new();
    let s = scope(&[("kind", "public")]);
    let ctx = MemoryAccessPolicy::build_context("userA", "group", "g1", "group", "qq", 14);
    assert!(policy._scope_matches(&s, &ctx));
}

#[test]
fn test_scope_matches_group_members_match() {
    let policy = MemoryAccessPolicy::new();
    let s = scope(&[("kind", "group_members"), ("group_id", "g1")]);
    let ctx = MemoryAccessPolicy::build_context("userA", "group", "g1", "group", "qq", 14);
    assert!(policy._scope_matches(&s, &ctx));
}

#[test]
fn test_scope_matches_direct_users_match() {
    let policy = MemoryAccessPolicy::new();
    let s = scope(&[("kind", "direct_users"), ("user_id", "userA")]);
    let ctx = MemoryAccessPolicy::build_context("userA", "private", "", "user", "qq", 14);
    assert!(policy._scope_matches(&s, &ctx));
}

#[test]
fn scope_without_kind_is_self_only_and_unknown_kind_never_matches() {
    let policy = MemoryAccessPolicy::new();
    let ctx = MemoryAccessPolicy::build_context("userA", "private", "", "user", "qq", 14);
    assert!(policy._scope_matches(&scope(&[("user_id", "userA")]), &ctx));
    assert!(!policy._scope_matches(&scope(&[("kind", "somebody")]), &ctx));
    let other_group = MemoryAccessPolicy::build_context("userA", "group", "g2", "user", "qq", 14);
    assert!(!policy._scope_matches(&scope(&[("kind", "group_members"), ("group_id", "g1")]), &other_group));
}

#[test]
fn test_owner_matches_true() {
    let policy = MemoryAccessPolicy::new();
    let ctx = MemoryAccessPolicy::build_context("userA", "group", "g1", "group", "qq", 14);
    assert!(policy._owner_matches("userA", &ctx));
}

#[test]
fn test_owner_matches_false() {
    let policy = MemoryAccessPolicy::new();
    let ctx = MemoryAccessPolicy::build_context("userA", "group", "g1", "group", "qq", 14);
    assert!(!policy._owner_matches("userB", &ctx));
}

#[test]
fn test_memory_access_context_default() {
    let ctx = MemoryAccessContext::default();
    assert_eq!(ctx.requester_user_id, "");
    assert_eq!(ctx.message_type, "private");
    assert_eq!(ctx.group_id, "");
    assert_eq!(ctx.read_scope, "user");
    assert_eq!(ctx.platform, "");
    assert_eq!(ctx.hour_of_day, -1);
}

#[test]
fn test_memory_access_context_new() {
    let ctx = MemoryAccessContext::new("user1", &ChatScope::Private);
    assert_eq!(ctx.requester_user_id, "user1");
    assert_eq!(ctx.message_type, "private");
    assert!(ctx.group_id.is_empty());

    let ctx = MemoryAccessContext::new("user1", &ChatScope::Group("g1".into()));
    assert_eq!(ctx.message_type, "group");
    assert_eq!(ctx.group_id, "g1");
}
