use xueli_memory::extraction::buffer::BufferTurn;
use xueli_memory::extraction::extractor::{AttemptOutcome, ExtractionStep, MemoryExtractor};

fn buffer_turn(turn_id: usize, user: &str, message_id: &str) -> BufferTurn {
    BufferTurn {
        turn_id,
        user: user.to_string(),
        assistant: "你好呀！".to_string(),
        timestamp: "2024-01-01T00:00:00Z".to_string(),
        source_message_type: "private".to_string(),
        source_group_id: String::new(),
        source_message_id: message_id.to_string(),
        source_platform: "qq".to_string(),
        owner_user_id: "u1".to_string(),
        dialogue_key: "qq:private:u1".to_string(),
        session_id: "session_1".to_string(),
        narrative_summary: String::new(),
    }
}

fn add(extractor: &mut MemoryExtractor, session: &str, turn_id: usize, user: &str) {
    extractor.add_dialogue_turn(
        "u1", user, "ok", session, turn_id, "dk", "private", "", "", "", "qq",
    );
}

#[test]
fn test_build_memory_metadata() {
    let extractor = MemoryExtractor::new("gpt-4o-mini");
    let turns = vec![buffer_turn(1, "你好", "msg1")];
    let metadata = extractor
        .build_memory_metadata("u1", "session_1", "qq:private:u1", &turns, vec![])
        .expect("turns were given");
    assert_eq!(metadata.owner_user_id, "u1");
    assert_eq!(metadata.source_turn_start, 1);
    assert_eq!(metadata.source_message_type, "private");
    let hour = &metadata.encoding_context.hour_of_day;
    assert_eq!(hour.len(), 2);
    assert!(hour.parse::<u32>().unwrap() <= 23);
}

#[test]
fn test_build_related_dialogue_snapshot() {
    let extractor = MemoryExtractor::new("gpt-4o-mini");
    let turns = vec![buffer_turn(1, "你好", "msg1")];
    let snapshot = extractor.build_related_dialogue_snapshot(&turns);
    assert_eq!(snapshot.len(), 1);
    assert_eq!(snapshot[0].turn_id, 1);
    assert_eq!(snapshot[0].user, "你好");
    assert_eq!(snapshot[0].assistant, "你好呀！");
    assert_eq!(snapshot[0].owner_user_id, "u1");
}

#[test]
fn memory_metadata_collects_message_ids() {
    let turns = vec![
        buffer_turn(3, "a", "m3"),
        buffer_turn(4, "b", "  "),
        buffer_turn(6, "c", "m6"),
    ];
    let metadata =
        MemoryExtractor::memory_metadata_at("u1", "s", "dk", &turns, vec![], "07".to_string())
            .expect("turns were given");
    assert_eq!(metadata.source_turn_start, 3);
    assert_eq!(metadata.source_turn_end, 6);
    assert_eq!(metadata.source_message_ids, vec!["m3".to_string(), "m6".to_string()]);
    assert_eq!(metadata.source_message_id, "m6");
    assert_eq!(metadata.encoding_context.hour_of_day, "07");
    assert_eq!(metadata.encoding_context.emotional_tone, "");
    assert!(MemoryExtractor::memory_metadata_at("u1", "s", "dk", &[], vec![], "07".to_string()).is_none());
}

#[test]
fn extraction_round_shows_latest_pending_turns() {
    let mut extractor = MemoryExtractor::new("m").with_max_dialogue_length(2);
    assert!(extractor.prepare_extraction("u1", "s1").is_none());
    add(&mut extractor, "s1", 1, "one");
    add(&mut extractor, "s1", 5, "five");
    add(&mut extractor, "s1", 3, "three");
    let round = extractor.prepare_extraction("u1", " s1 ").expect("turns are pending");
    let ids: Vec<usize> = round.visible_turns.iter().map(|t| t.turn_id).collect();
    assert_eq!(ids, vec![5, 3]);
    assert_eq!(round.latest_turn_id, 5);
    assert!(round.dialogue_text.contains("T5"));
    assert!(!round.dialogue_text.contains("T1"));
    extractor.mark_extracted("s1", round.latest_turn_id);
    assert!(extractor.prepare_extraction("u1", "s1").is_none());
    assert_eq!(extractor.get_pending_turn_count("s1"), 0);
}

#[test]
fn extraction_is_due_when_forced_or_enough_pending() {
    let mut extractor = MemoryExtractor::new("m").with_extract_every_n_turns(2);
    add(&mut extractor, "s1", 1, "one");
    assert!(!extractor.extraction_due("s1", false));
    assert!(extractor.extraction_due("s1", true));
    assert!(!extractor.extraction_due("  ", true));
    add(&mut extractor, "s1", 2, "two");
    assert!(extractor.extraction_due("s1", false));
}

#[test]
fn blank_dialogue_detection() {
    assert!(MemoryExtractor::is_blank_dialogue("  无 "));
    assert!(MemoryExtractor::is_blank_dialogue("   "));
    assert!(!MemoryExtractor::is_blank_dialogue("无聊"));
}

#[test]
fn extraction_round_retries_then_gives_up() {
    let mut extractor = MemoryExtractor::new("gpt-4o-mini");
    add(&mut extractor, "s1", 1, "我喜欢猫");
    add(&mut extractor, "s1", 2, "我住在杭州");
    let round = extractor.prepare_extraction("u1", "s1");
    assert_eq!(extractor.first_step(round.as_ref()), ExtractionStep::Ask { attempt: 0 });
    let latest = round.as_ref().unwrap().latest_turn_id;
    assert_eq!(extractor.next_step(0, AttemptOutcome::Failed, latest), ExtractionStep::Ask { attempt: 1 });
    assert_eq!(extractor.next_step(1, AttemptOutcome::Failed, latest), ExtractionStep::Ask { attempt: 2 });
    assert_eq!(extractor.next_step(2, AttemptOutcome::Failed, latest), ExtractionStep::GiveUp);
}

#[test]
fn extraction_round_marks_only_when_memories_came_back() {
    let extractor = MemoryExtractor::new("gpt-4o-mini");
    assert_eq!(
        extractor.next_step(1, AttemptOutcome::Parsed { memories: 2 }, 7),
        ExtractionStep::Finish { mark_upto: Some(7) }
    );
    assert_eq!(
        extractor.next_step(0, AttemptOutcome::Parsed { memories: 0 }, 7),
        ExtractionStep::Finish { mark_upto: None }
    );
    assert_eq!(extractor.first_step(None), ExtractionStep::Skip);
}

#[test]
fn extraction_round_of_blank_dialogue_only_marks() {
    let mut extractor = MemoryExtractor::new("gpt-4o-mini");
    extractor.add_dialogue_turn("u1", "   ", " ", "s2", 4, "dk", "private", "", "", "", "qq");
    let round = extractor.prepare_extraction("u1", "s2");
    assert_eq!(extractor.first_step(round.as_ref()), ExtractionStep::MarkOnly { upto: 4 });
}
