use xueli_memory::extraction::parser::{
    json_object_runs_backwards, reflection_parse, ReflectionFields,
};
use xueli_memory::extraction::reflection::{
    reflection_payload, reflection_slice_runs_backwards, reflection_verdict, ReflectionReply,
    ReportedConflict,
};
use xueli_memory::internal::background::json_text_runs_backwards;

fn conflict(kind: Option<&str>, resolution: Option<&str>, reason: Option<&str>) -> ReportedConflict {
    ReportedConflict {
        conflict_type: kind.map(str::to_string),
        resolution: resolution.map(str::to_string),
        reason: reason.map(str::to_string),
    }
}

#[test]
fn reflection_payload_slices_braces() {
    assert_eq!(reflection_payload("  "), None);
    assert_eq!(reflection_payload("no json"), None);
    assert_eq!(reflection_payload("x {\"a\": 1} y").as_deref(), Some("{\"a\": 1}"));
    assert_eq!(reflection_payload(" {\"a\": 1").as_deref(), Some("{\"a\": 1"));
    assert_eq!(reflection_payload("}{").as_deref(), Some(""));
    assert!(reflection_slice_runs_backwards("} {"));
    assert!(!reflection_slice_runs_backwards("}{"));
    assert!(!reflection_slice_runs_backwards("{ } }"));
}

#[test]
fn reflection_verdict_with_conflicts() {
    let reply = ReflectionReply {
        conflicts: Some(vec![
            conflict(Some("update"), Some("update_old"), Some("位置信息已更新")),
            conflict(None, None, None),
        ]),
        summary: Some("搬家".to_string()),
    };
    let v = reflection_verdict(&reply);
    assert_eq!(v.conflicts, vec!["[update_old] 位置信息已更新".to_string(), "[keep_both] ".to_string()]);
    assert_eq!(v.resolutions, v.conflicts);
    assert!(v.has_conflict);
    assert_eq!(v.conflict_type, "update");
    assert_eq!(v.action, "update_old");
    assert_eq!(v.summary, "搬家");
    assert_eq!(v.reason, "位置信息已更新");
}

#[test]
fn reflection_verdict_without_conflicts() {
    for conflicts in [Some(vec![]), None] {
        let reply = ReflectionReply { conflicts, summary: Some("ignored".to_string()) };
        let v = reflection_verdict(&reply);
        assert!(v.conflicts.is_empty());
        assert!(!v.has_conflict);
        assert_eq!(v.action, "");
        assert_eq!(v.summary, "");
    }
    let reply = ReflectionReply {
        conflicts: Some(vec![conflict(Some("contradiction"), None, Some("r"))]),
        summary: None,
    };
    let v = reflection_verdict(&reply);
    assert_eq!(v.action, "keep_both");
    assert_eq!(v.summary, "");
}

#[test]
fn reflection_fields_defaults() {
    let fields = ReflectionFields {
        has_conflict: Some(true),
        conflict_type: Some(String::new()),
        action: None,
        summary: Some("  位置信息变更 ".to_string()),
        reason: None,
    };
    let r = reflection_parse(&fields);
    assert!(r.has_conflict);
    assert_eq!(r.conflict_type, "none");
    assert_eq!(r.action, "keep_both");
    assert_eq!(r.summary, "位置信息变更");
    assert_eq!(r.reason, "");
    let given = ReflectionFields {
        has_conflict: None,
        conflict_type: Some("update".to_string()),
        action: Some("update_old".to_string()),
        summary: None,
        reason: Some("用户从上海搬到北京".to_string()),
    };
    let r = reflection_parse(&given);
    assert!(!r.has_conflict);
    assert_eq!(r.conflict_type, "update");
    assert_eq!(r.action, "update_old");
    assert_eq!(r.reason, "用户从上海搬到北京");
}

#[test]
fn backwards_payloads_are_detected() {
    assert!(json_object_runs_backwards("a } b { c"));
    assert!(!json_object_runs_backwards("{\"k\": 1}"));
    assert!(!json_object_runs_backwards("no braces"));
    assert!(json_text_runs_backwards("] x ["));
    assert!(!json_text_runs_backwards("```json\n{\"a\": 1}\n```"));
}
