use xueli_memory::core_types::{MemoryItem, MemoryType};
use xueli_memory::retrieval::coordinator::PromptBudgets;
use xueli_memory::retrieval::reranker::{memory_type_name, CrossEncoderReranker};
use xueli_memory::retrieval::two_stage_retriever::{RetrievalContext, SuppressionRegistry};

#[test]
fn test_suppression_basic_within_limit() {
    let mut registry = SuppressionRegistry::new(100);
    assert!(registry.should_suppress("m1", "q1"));
    assert!(registry.should_suppress("m1", "q1"));
    assert!(registry.should_suppress("m1", "q1"));
    assert!(!registry.should_suppress("m1", "q1"));
}

#[test]
fn test_suppression_cooldown_reset() {
    let mut registry = SuppressionRegistry::new(3);
    assert!(registry.should_suppress("m1", "q1"));
    assert!(registry.should_suppress("m1", "q1"));
    registry.should_suppress("m2", "q2");
    assert!(registry.should_suppress("m1", "q1"));
}

#[test]
fn test_suppression_independent_keys() {
    let mut registry = SuppressionRegistry::new(100);
    assert!(registry.should_suppress("m1", "q1"));
    assert!(registry.should_suppress("m2", "q2"));
    assert!(registry.should_suppress("m1", "q2"));
}

#[test]
fn suppression_reset_starts_over() {
    let mut registry = SuppressionRegistry::new(100);
    for _ in 0..3 {
        assert!(registry.should_suppress("m1", "q1"));
    }
    assert!(!registry.should_suppress("m1", "q1"));
    registry.reset();
    assert!(registry.should_suppress("m1", "q1"));
}

#[test]
fn suppression_cooldown_clears_every_interval() {
    let mut registry = SuppressionRegistry::new(4);
    for _ in 0..3 {
        assert!(registry.should_suppress("m", "q"));
    }
    assert!(!registry.should_suppress("m", "q"));
    // the fifth call sees four earlier calls: a multiple of the cooldown
    assert!(registry.should_suppress("m", "q"));
}

#[test]
fn test_prompt_budgets_default() {
    let budgets = PromptBudgets::default();
    assert_eq!(budgets.user_important, 360);
    assert_eq!(budgets.addressing, 180);
    assert_eq!(budgets.shared, 260);
    assert_eq!(budgets.dynamic, 420);
    assert_eq!(budgets.session_restore, 260);
    assert_eq!(budgets.precise_recall, 260);
}

#[test]
fn retrieval_context_default() {
    let ctx = RetrievalContext::default();
    assert_eq!(ctx.user_id, "");
    assert_eq!(ctx.group_id, "");
    assert_eq!(ctx.hour_of_day, -1);
}

#[test]
fn memory_type_names() {
    assert_eq!(memory_type_name(&MemoryType::Fact), "fact");
    assert_eq!(memory_type_name(&MemoryType::Preference), "preference");
    assert_eq!(memory_type_name(&MemoryType::Event), "event");
    assert_eq!(memory_type_name(&MemoryType::Opinion), "opinion");
    assert_eq!(memory_type_name(&MemoryType::Relationship), "relationship");
}

fn make_memory(id: &str) -> MemoryItem {
    MemoryItem {
        id: id.to_string(),
        user_id: "u1".to_string(),
        content: "c".to_string(),
        memory_type: MemoryType::Fact,
        importance: 5,
        created_at: 0,
        last_accessed_at: 0,
        access_count: 1,
    }
}

#[test]
fn cross_encoder_keeps_leading_candidates() {
    let reranker = CrossEncoderReranker::new();
    let candidates = vec![(make_memory("m1"), 8u32), (make_memory("m2"), 6u32)];
    let result = reranker.rerank(candidates, 1);
    assert_eq!(result.len(), 1);
    assert_eq!(result[0].0.id, "m1");
    let all = reranker.rerank(vec![1, 2, 3], 10);
    assert_eq!(all, vec![1, 2, 3]);
}

#[test]
fn suppression_answers_follow_the_calls_since_the_last_clear() {
    // with a cooldown of 4, calls 4, 8, ... start from cleared counts
    let mut registry = SuppressionRegistry::new(4);
    let keys = ["a", "a", "b", "a", "a", "a", "a", "a", "a"];
    let mut answers = Vec::new();
    for k in keys {
        answers.push(registry.should_suppress(k, "q"));
    }
    // call n answers whether its key occurred fewer than 3 times in calls (n/4)*4 .. n
    let mut expected = Vec::new();
    for n in 0..keys.len() {
        let start = (n / 4) * 4;
        let seen = keys[start..n].iter().filter(|k| **k == keys[n]).count();
        expected.push(seen < 3);
    }
    assert_eq!(answers, expected);
    assert_eq!(answers, vec![true, true, true, true, true, true, true, false, true]);
}
