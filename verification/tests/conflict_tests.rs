use xueli_memory::extraction::parser::normalize_reflection_text;
use xueli_memory::extraction::reflection::{
    build_reflection_evidence, estimate_conflict_score, find_conflict_candidates, reflection_lists,
    AnchorTurn, CandidateMetadata, ConflictCandidate, EvidenceEntry,
};

fn turn(id: Option<u64>, user: Option<&str>, session: Option<&str>, group: Option<&str>) -> AnchorTurn {
    AnchorTurn {
        turn_id: id,
        user: user.map(|s| s.to_string()),
        session_id: session.map(|s| s.to_string()),
        source_group_id: group.map(|s| s.to_string()),
    }
}

fn candidate(id: &str, content: &str, meta: CandidateMetadata<String>) -> ConflictCandidate<String> {
    ConflictCandidate {
        id: Some(id.to_string()),
        kind: None,
        content: Some(content.to_string()),
        metadata: meta,
    }
}

fn no_metadata() -> CandidateMetadata<String> {
    CandidateMetadata {
        source_session_id: None,
        source_turn_start: None,
        source_turn_end: None,
        source_group_id: None,
        group_id: None,
    }
}

#[test]
fn test_estimate_conflict_score_same_topic_polarity_diff() {
    let (num, den) = estimate_conflict_score("喜欢喝咖啡", "讨厌喝咖啡", 1, 10);
    assert!(num > 0);
    assert!(num <= den);
    // the topics are the same, so the score reaches its cap
    assert_eq!((num, den), (1, 1));
}

#[test]
fn test_estimate_conflict_score_same_stance_no_conflict() {
    assert_eq!(estimate_conflict_score("喜欢咖啡", "喜欢奶茶", 45, 100), (0, 1));
}

#[test]
fn test_estimate_conflict_score_empty() {
    assert_eq!(estimate_conflict_score("", "", 1, 10), (0, 1));
    assert_eq!(estimate_conflict_score("hello", "hello", 1, 10), (0, 1));
}

#[test]
fn conflict_score_partial_overlap_with_time_word() {
    // topics "不咖啡" and "咖啡豆": 2/3 + 1/4 + 1/10 is above 1, so the cap applies
    assert_eq!(estimate_conflict_score("最近不喝咖啡", "喜欢咖啡豆", 1, 10), (1, 1));
    // topics "茶" and "奶茶": overlap 1/1
    assert_eq!(estimate_conflict_score("讨厌茶", "奶茶", 1, 10), (1, 1));
    // topics "abc" and "abd": overlap 2/3; 2/3 + 1/4 = 220/240 below 1
    let (num, den) = estimate_conflict_score("讨厌abc", "abd", 1, 10);
    assert_eq!(num * 240, 220 * den);
    // with a word of time: 2/3 + 1/4 + 1/10 is above 1
    assert_eq!(estimate_conflict_score("现在讨厌abc", "abd", 1, 10), (1, 1));
    // an overlap below the threshold gives 0
    assert_eq!(estimate_conflict_score("讨厌abc", "abd", 7, 10), (0, 1));
}

#[test]
fn conflict_score_is_symmetric_on_examples() {
    let pairs = [("讨厌abc", "abd"), ("喜欢喝咖啡", "讨厌喝咖啡"), ("不要x", "xy")];
    for (a, b) in pairs {
        assert_eq!(estimate_conflict_score(a, b, 1, 10), estimate_conflict_score(b, a, 1, 10));
    }
}

#[test]
fn test_find_conflict_candidates() {
    let records = vec![Some("讨厌喝咖啡".to_string())];
    let candidates = find_conflict_candidates("喜欢喝咖啡", &records, 1, 10, 3);
    assert!(!candidates.is_empty());
    assert_eq!(candidates[0].index, 0);
    assert_eq!((candidates[0].score_num, candidates[0].score_den), (1, 1));
}

#[test]
fn conflict_candidates_best_first_and_limited() {
    let records = vec![
        Some("abd".to_string()),
        None,
        Some("   ".to_string()),
        Some("讨厌喝咖啡".to_string()),
        Some("喜欢abc".to_string()),
        Some("abc".to_string()),
    ];
    // against "讨厌abc": records 4 and 5 share the whole topic and reach the
    // cap, record 0 scores 2/3 + 1/4, record 3 shares no topic
    let all = find_conflict_candidates("讨厌abc", &records, 1, 10, 10);
    let order: Vec<usize> = all.iter().map(|c| c.index).collect();
    assert_eq!(order, vec![4, 5, 0]);
    let top = find_conflict_candidates("讨厌abc", &records, 1, 10, 2);
    let order: Vec<usize> = top.iter().map(|c| c.index).collect();
    assert_eq!(order, vec![4, 5]);
    // a limit of 0 still keeps one
    assert_eq!(find_conflict_candidates("讨厌abc", &records, 1, 10, 0).len(), 1);
}

#[test]
fn test_build_reflection_evidence() {
    let turns = vec![turn(Some(1), Some("用户说喜欢咖啡"), Some("s1"), None)];
    let candidates: Vec<ConflictCandidate<String>> = vec![];
    let evidence = build_reflection_evidence(&turns, candidates);
    assert_eq!(evidence.len(), 1);
    match &evidence[0] {
        EvidenceEntry::NewMemory { turn_range, source_session_id, source_group_id, quote } => {
            assert_eq!(turn_range, "T1");
            assert_eq!(source_session_id, "s1");
            assert_eq!(source_group_id, "");
            assert_eq!(quote, "用户说喜欢咖啡");
        }
        _ => panic!("the first entry is the new memory"),
    }
}

#[test]
fn reflection_evidence_spans_quotes_and_candidates() {
    let turns = vec![
        turn(Some(3), Some(" a "), Some("s0"), Some("g0")),
        turn(Some(4), Some("   "), None, None),
        turn(Some(5), Some("b"), None, None),
        turn(None, Some("c"), None, None),
        turn(Some(9), Some("d"), Some("s9"), Some("g9")),
    ];
    let mut with_group = no_metadata();
    with_group.group_id = Some("g-old".to_string());
    with_group.source_turn_start = Some(2);
    let mut with_source_group = no_metadata();
    with_source_group.source_group_id = Some("g-src".to_string());
    with_source_group.group_id = Some("ignored".to_string());
    with_source_group.source_session_id = Some("s-old".to_string());
    with_source_group.source_turn_end = Some(7);
    let candidates = vec![
        candidate("m1", "喜欢茶", with_group),
        candidate("m2", "讨厌茶", with_source_group),
    ];
    let evidence = build_reflection_evidence(&turns, candidates);
    assert_eq!(evidence.len(), 3);
    match &evidence[0] {
        EvidenceEntry::NewMemory { turn_range, source_session_id, source_group_id, quote } => {
            assert_eq!(turn_range, "T3-T9");
            assert_eq!(source_session_id, "s9");
            assert_eq!(source_group_id, "g9");
            assert_eq!(quote, "a / b / c");
        }
        _ => panic!("the first entry is the new memory"),
    }
    match &evidence[1] {
        EvidenceEntry::ExistingMemory {
            memory_id,
            memory_type,
            content,
            source_session_id,
            source_turn_start,
            source_turn_end,
            source_group_id,
        } => {
            assert_eq!(memory_id.as_deref(), Some("m1"));
            assert_eq!(*memory_type, None);
            assert_eq!(content.as_deref(), Some("喜欢茶"));
            assert_eq!(*source_session_id, None);
            assert_eq!(*source_turn_start, 2);
            assert_eq!(*source_turn_end, 0);
            assert_eq!(source_group_id.as_deref(), Some("g-old"));
        }
        _ => panic!("existing memories follow"),
    }
    match &evidence[2] {
        EvidenceEntry::ExistingMemory { source_session_id, source_turn_end, source_group_id, .. } => {
            assert_eq!(source_session_id.as_deref(), Some("s-old"));
            assert_eq!(*source_turn_end, 7);
            assert_eq!(source_group_id.as_deref(), Some("g-src"));
        }
        _ => panic!("existing memories follow"),
    }
}

#[test]
fn reflection_evidence_without_turns() {
    let evidence = build_reflection_evidence::<String>(&[], vec![]);
    match &evidence[0] {
        EvidenceEntry::NewMemory { turn_range, quote, .. } => {
            assert_eq!(turn_range, "T0");
            assert_eq!(quote, "");
        }
        _ => panic!("the first entry is the new memory"),
    }
}

#[test]
fn reflection_text_drops_whitespace_and_case() {
    assert_eq!(normalize_reflection_text("  Hello  World \n Tea "), "helloworldtea");
    assert_eq!(normalize_reflection_text("喜欢 咖啡"), "喜欢咖啡");
    assert_eq!(normalize_reflection_text("   "), "");
}

fn stored(id: &str, content: &str) -> xueli_memory::core_types::MemoryItem {
    xueli_memory::core_types::MemoryItem {
        id: id.to_string(),
        user_id: "u1".to_string(),
        content: content.to_string(),
        memory_type: xueli_memory::core_types::MemoryType::Fact,
        importance: 1,
        created_at: 0,
        last_accessed_at: 0,
        access_count: 0,
    }
}

#[test]
fn reflection_lists_memories_one_per_line() {
    let existing = vec![stored("m1", "用户住在上海"), stored("m2", "喜欢茶")];
    let new_items = vec![stored("n1", "用户搬家到北京")];
    let (old_list, new_list) = reflection_lists(&existing, &new_items).expect("both have memories");
    assert_eq!(old_list, "- [m1] 用户住在上海\n- [m2] 喜欢茶");
    assert_eq!(new_list, "- [n1] 用户搬家到北京");
    assert!(reflection_lists(&existing, &[]).is_none());
    assert!(reflection_lists(&[], &new_items).is_none());
}

#[test]
fn conflict_score_is_zero_on_blank_text_and_at_least_a_quarter_otherwise() {
    assert_eq!(estimate_conflict_score("   ", "讨厌喝咖啡", 1, 10), (0, 1));
    assert_eq!(estimate_conflict_score("喜欢喝咖啡", "\n", 1, 10), (0, 1));
    assert_eq!(estimate_conflict_score(" Hello ", "hello", 1, 10), (0, 1));
    for (a, b) in [("喜欢喝咖啡", "讨厌喝咖啡"), ("不喜欢跑步", "喜欢跑步和游泳"), ("讨厌茶", "奶茶")] {
        let (num, den) = estimate_conflict_score(a, b, 1, 10);
        assert!(num == 0 || 4 * num >= den);
        assert!(num <= den);
        assert_eq!(estimate_conflict_score(b, a, 1, 10), (num, den));
    }
}
