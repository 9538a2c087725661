use xueli_memory::extraction::reflection::{has_negative_stance, strip_stance_terms, MemoryReflection};

#[test]
fn test_strip_stance_terms() {
    let result = strip_stance_terms("最近不喜欢喝咖啡");
    assert!(!result.is_empty());
    assert!(!result.contains("最近"));
    assert!(!result.contains("喝"));
}

#[test]
fn strip_stance_terms_exact_topic() {
    assert_eq!(strip_stance_terms("最近不喜欢喝咖啡"), "不咖啡");
    assert_eq!(strip_stance_terms("我喜欢喝咖啡！"), "我咖啡");
    assert_eq!(strip_stance_terms("I like tea, 现在"), "Iliketea");
    assert_eq!(strip_stance_terms(""), "");
}

#[test]
fn test_has_negative_stance() {
    assert!(has_negative_stance("我不喜欢这个"));
    assert!(has_negative_stance("讨厌下雨"));
    assert!(!has_negative_stance("我喜欢晴天"));
}

#[test]
fn negative_stance_cues() {
    assert!(has_negative_stance("对这个没兴趣"));
    assert!(has_negative_stance("别再提了"));
    assert!(!has_negative_stance(""));
}

#[test]
fn reflection_settings() {
    let r = MemoryReflection::new("gpt-4o-mini");
    assert_eq!(r.model, "gpt-4o-mini");
    assert_eq!(r.max_retries, 3);
}
