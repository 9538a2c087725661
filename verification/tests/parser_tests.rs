use std::collections::HashSet;

use xueli_memory::extraction::models::{ExtractedMemory, ImportanceSource};
use xueli_memory::extraction::parser::{
    extract_json_object, is_explicit_no_memory_response, is_rate_limit_error, is_valid_anchor,
    normalize_text_simple, parse_anchor, parse_extraction_lines, try_parse_category_directive,
    try_parse_fact_kind_directive, try_parse_tone_directive,
};

/// The level a pipe line's importance score gives: the score read as a
/// number (0.5 where it is not one), clamped to [0, 1], times five,
/// rounded, clamped to [1, 5].
fn score_level(importance: &ImportanceSource) -> u32 {
    match importance {
        ImportanceSource::Score(text) => {
            let v: f64 = text.parse::<f64>().unwrap_or(0.5).clamp(0.0, 1.0);
            ((v * 5.0).round() as u32).clamp(1, 5)
        }
        _ => 3,
    }
}

fn parse_extraction_response(content: &str) -> Vec<ExtractedMemory> {
    parse_extraction_lines(content)
        .into_iter()
        .map(|line| {
            let level = score_level(&line.importance);
            line.into_memory(level)
        })
        .collect()
}

fn memory(start: u32, end: u32, category: &str) -> ExtractedMemory {
    ExtractedMemory {
        content: "test".into(),
        source_turn_start: start,
        source_turn_end: end,
        is_important: false,
        importance: 3,
        emotional_tone: String::new(),
        memory_category: category.into(),
        fact_kind: String::new(),
    }
}

#[test]
fn test_parse_anchor_single() {
    assert_eq!(parse_anchor("T1"), Some((1, 1)));
    assert_eq!(parse_anchor("T10"), Some((10, 10)));
}

#[test]
fn test_parse_anchor_range() {
    assert_eq!(parse_anchor("T1-T3"), Some((1, 3)));
    assert_eq!(parse_anchor("T1-T10"), Some((1, 10)));
}

#[test]
fn test_parse_anchor_range_with_optional_t() {
    assert_eq!(parse_anchor("T1-T3"), Some((1, 3)));
}

#[test]
fn test_parse_anchor_range_no_t_prefix_end() {
    assert_eq!(parse_anchor("T1-3"), Some((1, 3)));
}

#[test]
fn test_parse_anchor_invalid() {
    assert_eq!(parse_anchor(""), None);
    assert_eq!(parse_anchor("T0"), None);
    assert_eq!(parse_anchor("T3-T1"), None);
    assert_eq!(parse_anchor("abc"), None);
    assert_eq!(parse_anchor("TX"), None);
}

#[test]
fn test_parse_anchor_lowercase() {
    assert_eq!(parse_anchor("t1"), Some((1, 1)));
    assert_eq!(parse_anchor("t1-t3"), Some((1, 3)));
}

#[test]
fn parse_anchor_trims_and_rejects_overflow() {
    assert_eq!(parse_anchor("  T7  "), Some((7, 7)));
    assert_eq!(parse_anchor("7"), Some((7, 7)));
    assert_eq!(parse_anchor("T99999999999"), None);
    assert_eq!(parse_anchor("T1-"), None);
}

#[test]
fn parsed_anchors_are_well_formed_ranges() {
    for text in ["T1", "T2-T9", "t3-5", "T5-T5", "T9-T2", "T0-T3", "x"] {
        if let Some((s, e)) = parse_anchor(text) {
            assert!(s > 0 && s <= e);
        }
    }
}

#[test]
fn test_is_valid_anchor_basic() {
    let allowed: HashSet<u32> = [1, 2, 3, 4, 5].into_iter().collect();
    assert!(is_valid_anchor(&memory(1, 3, "important"), &allowed));
    assert!(!is_valid_anchor(&memory(1, 6, ""), &allowed));
    assert!(!is_valid_anchor(&memory(0, 3, ""), &allowed));
    assert!(!is_valid_anchor(&memory(3, 1, ""), &allowed));
}

#[test]
fn test_no_memory_exact_match() {
    assert!(is_explicit_no_memory_response("无"));
    assert!(is_explicit_no_memory_response("无可提取内容"));
    assert!(is_explicit_no_memory_response("none"));
    assert!(is_explicit_no_memory_response("nomemory"));
}

#[test]
fn test_no_memory_substring_match() {
    assert!(is_explicit_no_memory_response("暂无记忆"));
    assert!(is_explicit_no_memory_response("no memory found"));
    assert!(is_explicit_no_memory_response("没有值得记录的内容"));
    assert!(is_explicit_no_memory_response("无需记录"));
    assert!(is_explicit_no_memory_response("无需提取"));
    assert!(is_explicit_no_memory_response("没有相关信息"));
    assert!(is_explicit_no_memory_response("nothing to remember here"));
    assert!(is_explicit_no_memory_response("trivial conversation"));
    assert!(is_explicit_no_memory_response("nothing worth noting"));
    assert!(is_explicit_no_memory_response("nothing notable"));
    assert!(is_explicit_no_memory_response("no new information"));
    assert!(is_explicit_no_memory_response("信息不足，无法确定"));
    assert!(is_explicit_no_memory_response("不足以提取记忆"));
    assert!(is_explicit_no_memory_response("无有效信息"));
    assert!(is_explicit_no_memory_response("没有可提取的记忆"));
    assert!(is_explicit_no_memory_response("当前对话没有值得提取的内容"));
}

#[test]
fn test_no_memory_negative() {
    assert!(!is_explicit_no_memory_response(""));
    assert!(!is_explicit_no_memory_response("用户喜欢喝咖啡"));
    assert!(!is_explicit_no_memory_response("T1: 一些重要记忆内容"));
}

#[test]
fn test_no_memory_trim() {
    assert!(is_explicit_no_memory_response("  暂无记忆  "));
}

#[test]
fn no_memory_ignores_case_and_punctuation() {
    assert!(is_explicit_no_memory_response("No Memory."));
    assert!(is_explicit_no_memory_response("NONE!"));
    assert!(is_explicit_no_memory_response("“无”。"));
}

#[test]
fn test_rate_limit_detection() {
    assert!(is_rate_limit_error("HTTP 429 Too Many Requests"));
    assert!(is_rate_limit_error("rate limit exceeded"));
    assert!(is_rate_limit_error("rate-limited"));
}

#[test]
fn test_rate_limit_negative() {
    assert!(!is_rate_limit_error(""));
    assert!(!is_rate_limit_error("connection timeout"));
    assert!(!is_rate_limit_error("internal server error"));
}

#[test]
fn rate_limit_ignores_case() {
    assert!(is_rate_limit_error("Rate Limit reached"));
}

#[test]
fn normalize_text_simple_drops_spaces_and_punctuation() {
    assert_eq!(normalize_text_simple(" No, Memory! "), "nomemory");
    assert_eq!(normalize_text_simple("无可提取内容。"), "无可提取内容");
}

#[test]
fn test_parse_empty() {
    assert!(parse_extraction_response("").is_empty());
    assert!(parse_extraction_response("   ").is_empty());
}

#[test]
fn test_parse_pipe_format_single() {
    let input = "用户喜欢喝咖啡|T1|T1|preference|开心|0.8|偏好|coffee,drink";
    let result = parse_extraction_response(input);
    assert_eq!(result.len(), 1);
    assert_eq!(result[0].content, "用户喜欢喝咖啡");
    assert_eq!(result[0].source_turn_start, 1);
    assert_eq!(result[0].source_turn_end, 1);
    assert_eq!(result[0].memory_category, "preference");
    assert_eq!(result[0].emotional_tone, "开心");
    assert_eq!(result[0].importance, 4);
    assert_eq!(result[0].fact_kind, "偏好");
}

#[test]
fn test_parse_pipe_format_multi() {
    let input = "用户喜欢咖啡|T1|T1|preference|喜欢|0.7||\n用户住在北京|T2|T2|fact|平静|0.9|背景|";
    let result = parse_extraction_response(input);
    assert_eq!(result.len(), 2);
    assert_eq!(result[0].content, "用户喜欢咖啡");
    assert_eq!(result[1].content, "用户住在北京");
}

#[test]
fn pipe_importance_score_text_is_kept_for_the_caller() {
    let lines = parse_extraction_lines("用户住在北京|T2|T2|fact|平静|0.9|背景|");
    assert_eq!(lines.len(), 1);
    match &lines[0].importance {
        ImportanceSource::Score(t) => assert_eq!(t, "0.9"),
        _ => panic!("expected a score"),
    }
    let m = parse_extraction_response("用户住在北京|T2|T2|fact|平静|0.9|背景|");
    assert_eq!(m[0].importance, 5);
    assert!(m[0].is_important);
}

#[test]
fn test_parse_pipe_format_with_directives() {
    let input = "[TONE:开心]\n用户喜欢咖啡|T1|T1|preference||0.7||";
    let result = parse_extraction_response(input);
    assert_eq!(result.len(), 1);
    assert_eq!(result[0].emotional_tone, "开心");
}

#[test]
fn test_parse_pipe_format_invalid_anchor_skipped() {
    assert!(parse_extraction_response("content|TX|TY|cat||0.5||").is_empty());
}

#[test]
fn test_parse_pipe_format_short_content_skipped() {
    assert!(parse_extraction_response("ab|T1|T1|cat||0.5||").is_empty());
}

#[test]
fn test_parse_tagged_format_important() {
    let result = parse_extraction_response("[IMPORTANT][T1-T3] 用户说他喜欢喝咖啡");
    assert_eq!(result.len(), 1);
    assert_eq!(result[0].content, "用户说他喜欢喝咖啡");
    assert_eq!(result[0].source_turn_start, 1);
    assert_eq!(result[0].source_turn_end, 3);
    assert!(result[0].is_important);
    assert_eq!(result[0].importance, 5);
    assert_eq!(result[0].memory_category, "important");
}

#[test]
fn test_parse_tagged_format_normal() {
    let result = parse_extraction_response("[NORMAL:3][T2] 用户今天心情不错");
    assert_eq!(result.len(), 1);
    assert_eq!(result[0].content, "用户今天心情不错");
    assert_eq!(result[0].source_turn_start, 2);
    assert_eq!(result[0].source_turn_end, 2);
    assert!(!result[0].is_important);
    assert_eq!(result[0].importance, 3);
}

#[test]
fn test_parse_tagged_format_with_user_prefix() {
    let result = parse_extraction_response("[IMPORTANT][T1] 用户张三: 我喜欢编程");
    assert_eq!(result.len(), 1);
    assert_eq!(result[0].content, "我喜欢编程");
}

#[test]
fn test_parse_tagged_format_with_category_directive() {
    let result = parse_extraction_response("[CATEGORY:核心事实]\n[IMPORTANT][T1] 用户是一名软件工程师");
    assert_eq!(result.len(), 1);
    assert_eq!(result[0].memory_category, "core_fact");
}

#[test]
fn test_parse_tagged_format_with_fact_kind() {
    let result = parse_extraction_response("[FACT_KIND:背景]\n[NORMAL:4][T2] 用户毕业于清华大学");
    assert_eq!(result.len(), 1);
    assert_eq!(result[0].content, "用户毕业于清华大学");
    assert_eq!(result[0].fact_kind, "背景");
}

#[test]
fn test_parse_no_memory_skipped() {
    assert!(parse_extraction_response("暂无记忆").is_empty());
    assert!(parse_extraction_response("no memory found in this conversation").is_empty());
}

#[test]
fn test_parse_comment_lines_skipped() {
    let result = parse_extraction_response("# 这是一条注释\n用户喜欢咖啡|T1|T1|fact|平静|0.5||");
    assert_eq!(result.len(), 1);
    assert_eq!(result[0].content, "用户喜欢咖啡");
}

#[test]
fn test_parse_empty_lines_skipped() {
    let result = parse_extraction_response("\n\n用户喜欢咖啡|T1|T1|fact|平静|0.5||\n\n");
    assert_eq!(result.len(), 1);
}

#[test]
fn test_parse_tone_directive_invalid_skipped() {
    let result = parse_extraction_response("[TONE:invalid_tone]\n用户喜欢咖啡|T1|T1|fact||0.5||");
    assert_eq!(result.len(), 1);
    assert_eq!(result[0].emotional_tone, "");
}

#[test]
fn test_parse_strip_memory_prefix() {
    let result = parse_extraction_response("普通记忆：用户的信息|T1|T1|fact||0.5||");
    assert_eq!(result.len(), 1);
    assert!(result[0].content.contains("用户的信息"));
}

#[test]
fn directives_are_read_on_their_own() {
    assert_eq!(try_parse_tone_directive("[TONE:开心]"), Some("开心".to_string()));
    assert_eq!(try_parse_tone_directive("[TONE:invalid_tone]"), None);
    assert_eq!(try_parse_category_directive("[CATEGORY:核心事实]"), Some("core_fact".to_string()));
    assert_eq!(try_parse_fact_kind_directive("[FACT_KIND:背景]"), Some("背景".to_string()));
    assert_eq!(try_parse_fact_kind_directive("plain text"), None);
}

#[test]
fn test_extract_json_object_bare() {
    assert_eq!(extract_json_object(r#"{"key": "value"}"#), r#"{"key": "value"}"#);
}

#[test]
fn test_extract_json_object_in_text() {
    let input = "prefix text {\"key\": \"value\"} suffix text";
    assert_eq!(extract_json_object(input), r#"{"key": "value"}"#);
}

#[test]
fn test_extract_json_object_empty() {
    assert_eq!(extract_json_object(""), "");
    assert_eq!(extract_json_object("no braces"), "");
}

#[test]
fn written_anchors_read_back() {
    for (a, b) in [(1u32, 1u32), (1, 4), (7, 12), (99, 100), (4294967295, 4294967295)] {
        assert_eq!(parse_anchor(&format!("T{a}-T{b}")), Some((a, b)));
        assert_eq!(parse_anchor(&format!("t{a}-{b}")), Some((a, b)));
        assert_eq!(parse_anchor(&format!("T{a}")), Some((a, a)));
        assert_eq!(parse_anchor(&format!("  T{a} ")), Some((a, a)));
    }
}

#[test]
fn parsed_reply_lines_name_positive_turns() {
    let reply = "[TONE:平静]\n用户喜欢猫|T5|T2\n[IMPORTANT][T1-T3] 用户住在杭州\n无关|T0|T1\nab|T1|T1";
    let lines = parse_extraction_lines(reply);
    assert_eq!(lines.len(), 2);
    for l in &lines {
        assert!(l.source_turn_start >= 1 && l.source_turn_end >= 1);
        assert!(l.content.len() > 2);
    }
    // a pipe line's end anchor is read as written, so it may come before the start
    assert_eq!((lines[0].source_turn_start, lines[0].source_turn_end), (5, 2));
    assert_eq!((lines[1].source_turn_start, lines[1].source_turn_end), (1, 3));
}
