use xueli_memory::retrieval::reranker::{
    rerank_order, rerank_user_prompt, truncate_candidate_content, RerankOrder,
};
use xueli_memory::retrieval::two_stage_retriever::RetrievalContext;

fn context() -> RetrievalContext {
    RetrievalContext { user_id: "u1".to_string(), group_id: "g1".to_string(), hour_of_day: -1 }
}

#[test]
fn test_truncate_candidate_content() {
    assert_eq!(truncate_candidate_content("short", 10), "short");
    let long = "this is a very long content string";
    assert!(truncate_candidate_content(long, 10).ends_with("..."));
    assert!(truncate_candidate_content(long, 10).len() <= 13);
}

#[test]
fn candidate_content_is_cut_exactly() {
    assert_eq!(truncate_candidate_content("  a   b\n c ", 10), "a b c");
    assert_eq!(truncate_candidate_content("this is a very long content string", 10), "this is...");
    assert_eq!(truncate_candidate_content("abcdef", 2), "a...");
    assert_eq!(truncate_candidate_content("咖啡咖啡咖啡", 9), "咖啡...");
}

#[test]
fn rerank_prompt_keeps_head_and_fitting_candidates() {
    let lines: Vec<String> = vec!["- id=a".to_string(), "- id=b".to_string(), "- id=c".to_string()];
    let head = "query: 咖啡\ntop_k: 2\nrequest_context:\n- requester_user_id=u1\n- group_id=g1\n- hour_of_day=-1\ncandidates:";
    let all = rerank_user_prompt("咖啡", &lines, 2, &context(), 10_000);
    assert_eq!(all, format!("{head}\n- id=a\n- id=b\n- id=c"));
    // the first two candidates always join; later ones only within the budget
    let tight = rerank_user_prompt("咖啡", &lines, 2, &context(), 0);
    assert_eq!(tight, format!("{head}\n- id=a\n- id=b"));
    let none = rerank_user_prompt("咖啡", &[], 2, &context(), 0);
    assert_eq!(none, head);
}

fn ids(xs: &[&str]) -> Vec<String> {
    xs.iter().map(|s| s.to_string()).collect()
}

#[test]
fn rerank_order_follows_the_ranking() {
    let cands = ids(&["m1", "m2", "m1"]);
    match rerank_order(&cands, &[], 5) {
        RerankOrder::AsGiven => {}
        _ => panic!("nothing ranked keeps the candidates as given"),
    }
    match rerank_order(&cands, &ids(&["m2", "x", "m1", "m2"]), 10) {
        RerankOrder::Ranked(v) => assert_eq!(v, vec![(1, 0), (2, 2), (1, 3)]),
        _ => panic!("ranked ids name candidates"),
    }
    match rerank_order(&cands, &ids(&["m2", "x", "m1", "m2"]), 2) {
        RerankOrder::Ranked(v) => assert_eq!(v, vec![(1, 0), (2, 2)]),
        _ => panic!("ranked ids name candidates"),
    }
    match rerank_order(&cands, &ids(&["x"]), 10) {
        RerankOrder::Unranked(v) => assert_eq!(v, vec![1, 2]),
        _ => panic!("no ranked id names a candidate"),
    }
    match rerank_order(&cands, &ids(&["x"]), 1) {
        RerankOrder::Unranked(v) => assert_eq!(v, vec![1]),
        _ => panic!("no ranked id names a candidate"),
    }
}
