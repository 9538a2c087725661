//! The text the extraction model is given: the user, the dialogue, and the
//! memories already held.
use vstd::prelude::*;
use crate::text::{
    chars_of, concat_chars, decimal, decimal_spec, eq_str, join_chars, join_with, string_of,
    trim, trim_spec, views,
};

verus! {

/// Existing memories listed at most.
pub const EXISTING_RECORDS_LIMIT: usize = 30;

/// What the listing reads of an existing memory record: its kind
/// (`ordinary` where the record has none) and its content.
pub struct ExistingRecord {
    pub kind: String,
    pub content: String,
}

/// The listed line of the record at `index` (from 0), if its content is not blank.
pub open spec fn record_line(index: int, r: ExistingRecord) -> Seq<char> {
    let label = if r.kind@ == "important"@ {
        "重要"@
    } else {
        "普通"@
    };
    decimal_spec((index + 1) as nat) + ". ["@ + label + "] "@ + trim_spec(r.content@)
}

/// The lines of the first `n` records with non-blank content.
pub open spec fn record_lines(rs: Seq<ExistingRecord>, n: nat) -> Seq<Seq<char>>
    decreases n,
{
    if n == 0 || n > rs.len() {
        Seq::empty()
    } else {
        let prev = record_lines(rs, (n - 1) as nat);
        if trim_spec(rs[n - 1].content@).len() == 0 {
            prev
        } else {
            prev.push(record_line(n - 1, rs[n - 1]))
        }
    }
}

/// The section listing the existing memories: a header and the first 30
/// records with content, numbered by position, with a note of the total
/// when more were held; empty when none has content.
pub open spec fn existing_section_spec(rs: Seq<ExistingRecord>) -> Seq<char> {
    let n: nat = if rs.len() > 30 {
        30
    } else {
        rs.len()
    };
    let lines = record_lines(rs, n);
    if lines.len() == 0 {
        Seq::empty()
    } else {
        "【已有记忆】"@ + "\n"@ + join_with(lines, "\n"@) + (if rs.len() > 30 {
            "\n（仅展示前 "@ + decimal_spec(30) + " 条，共 "@ + decimal_spec(rs.len()) + " 条）"@
        } else {
            Seq::empty()
        })
    }
}

/// The section listing the existing memories.
pub fn format_existing_records_section(records: &[ExistingRecord]) -> (r: String)
    ensures
        r@ == existing_section_spec(records@),
{
    let n: usize = if records.len() > EXISTING_RECORDS_LIMIT {
        EXISTING_RECORDS_LIMIT
    } else {
        records.len()
    };
    let mut lines: Vec<Vec<char>> = Vec::new();
    let mut i: usize = 0;
    while i < n
        invariant
            i <= n,
            n <= records@.len(),
            views(lines@) == record_lines(records@, i as nat),
        decreases n - i,
    {
        let content = trim(&chars_of(records[i].content.as_str()));
        if content.len() > 0 {
            let label = if eq_str(&chars_of(records[i].kind.as_str()), "important") {
                "重要"
            } else {
                "普通"
            };
            let line = concat_chars(
                &concat_chars(
                    &concat_chars(&concat_chars(&decimal(i + 1), &chars_of(". [")), &chars_of(label)),
                    &chars_of("] "),
                ),
                &content,
            );
            let ghost before = views(lines@);
            lines.push(line);
            proof {
                assert(views(lines@) =~= before.push(line@));
                assert(line@ =~= record_line(i as int, records@[i as int]));
            }
        }
        i = i + 1;
    }
    if lines.len() == 0 {
        return String::new();
    }
    let body = concat_chars(&chars_of("【已有记忆】\n"), &join_chars(&lines, "\n"));
    let suffix = if records.len() > EXISTING_RECORDS_LIMIT {
        concat_chars(
            &concat_chars(
                &concat_chars(&concat_chars(&chars_of("\n（仅展示前 "), &decimal(30)), &chars_of(" 条，共 ")),
                &decimal(records.len()),
            ),
            &chars_of(" 条）"),
        )
    } else {
        Vec::new()
    };
    let all = concat_chars(&body, &suffix);
    proof {
        reveal_strlit("【已有记忆】\n");
        reveal_strlit("【已有记忆】");
        reveal_strlit("\n");
        assert("【已有记忆】\n"@ =~= "【已有记忆】"@ + "\n"@);
        assert(all@ =~= existing_section_spec(records@));
    }
    string_of(&all)
}

/// The user part of the extraction request: the user id, the dialogue's
/// running summary when there is one, the dialogue, and the existing
/// memories when listed.
pub open spec fn extraction_prompt_spec(
    user_id: Seq<char>,
    dialogue_text: Seq<char>,
    narrative_summary: Seq<char>,
    existing_section: Seq<char>,
) -> Seq<char> {
    let head = "【用户】\n用户ID="@ + user_id;
    let with_narrative = if narrative_summary.len() > 0 {
        head + "\n"@ + ("当前对话主线摘要：\n- "@ + narrative_summary
            + "\n如果本轮提取与主线冲突，请以当前对话明确表达为准。"@)
    } else {
        head
    };
    let with_dialogue = with_narrative + "\n\n【对话记录】\n"@ + dialogue_text;
    if existing_section.len() > 0 {
        with_dialogue + "\n\n"@ + existing_section
    } else {
        with_dialogue
    }
}

/// The user part of the extraction request.
pub fn build_extraction_prompt_content(
    user_id: &str,
    dialogue_text: &str,
    narrative_summary: &str,
    existing_records_section: &str,
) -> (r: String)
    ensures
        r@ == extraction_prompt_spec(user_id@, dialogue_text@, narrative_summary@, existing_records_section@),
{
    let head = concat_chars(&chars_of("【用户】\n用户ID="), &chars_of(user_id));
    let narrative = chars_of(narrative_summary);
    let with_narrative = if narrative.len() > 0 {
        let context = concat_chars(
            &concat_chars(&chars_of("当前对话主线摘要：\n- "), &narrative),
            &chars_of("\n如果本轮提取与主线冲突，请以当前对话明确表达为准。"),
        );
        concat_chars(&concat_chars(&head, &chars_of("\n")), &context)
    } else {
        head
    };
    let with_dialogue = concat_chars(
        &concat_chars(&with_narrative, &chars_of("\n\n【对话记录】\n")),
        &chars_of(dialogue_text),
    );
    let existing = chars_of(existing_records_section);
    let all = if existing.len() > 0 {
        concat_chars(&concat_chars(&with_dialogue, &chars_of("\n\n")), &existing)
    } else {
        with_dialogue
    };
    string_of(&all)
}

} // verus!
