use xueli_memory::retrieval::recall_renderer::{RecallRenderer, FUZZY_RECALL_INSTRUCTION};

#[test]
fn test_apply_empty() {
    let renderer = RecallRenderer::default();
    assert_eq!(renderer.apply(""), "");
    assert_eq!(renderer.apply("  "), "");
}

#[test]
fn test_apply_with_text() {
    let renderer = RecallRenderer { enabled: true };
    let result = renderer.apply("用户喜欢咖啡");
    assert!(result.contains("回忆提示"));
    assert!(result.contains("用户喜欢咖啡"));
}

#[test]
fn fuzzy_wording_wraps_exactly() {
    let on = RecallRenderer { enabled: true };
    let off = RecallRenderer::default();
    assert_eq!(on.apply("  x  "), format!("{}\n\nx", FUZZY_RECALL_INSTRUCTION));
    assert_eq!(off.apply("  x  "), "x");
    assert_eq!(off.wrap_recall_context(" raw "), " raw ");
    assert_eq!(on.render_fuzzy_instruction(), FUZZY_RECALL_INSTRUCTION);
    assert_eq!(off.render_fuzzy_instruction(), "");
    assert!(FUZZY_RECALL_INSTRUCTION.starts_with("【回忆提示】"));
    assert!(FUZZY_RECALL_INSTRUCTION.ends_with("不需要使用任何预设的开场白。"));
}
