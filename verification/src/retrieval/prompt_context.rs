//! The memory part of a prompt put together from what was retrieved: the
//! sections, the memories they use and the prompt text.
use vstd::prelude::*;

use crate::core_types::MemoryItem;
use crate::internal::access_policy::{first_entries, MemoryAccessPolicy};
use crate::retrieval::coordinator::{
    budget_for_intensity, build_prompt_text, entry_content_spec, intensity_budget_spec,
    memory_to_prompt_entry, prompt_text_spec, trim_entries, trim_scan, PromptBudgets, PromptEntry,
    PromptSections,
};
use crate::text::{chars_of, eq_str};

verus! {

/// The sections of a prompt, the ids of the memories they use and its text.
pub struct PromptContextResult {
    pub prompt_text: String,
    pub sections: PromptSections,
    pub used_memory_ids: Vec<String>,
}

/// `e` is the entry of memory `m` in `section` of a prompt for `requester`.
pub open spec fn entry_of_memory(e: PromptEntry, m: MemoryItem, section: Seq<char>, requester: Seq<char>) -> bool {
    &&& e.content@ == entry_content_spec(m, section, requester)
    &&& e.memory_id@ == m.id@
    &&& e.owner_user_id@ == m.user_id@
    &&& e.score == m.importance
    &&& e.source_message_type@.len() == 0
    &&& e.source_group_id@.len() == 0
}

/// `es` are the entries of the memories `ms`, in order.
pub open spec fn entries_of_memories(
    es: Seq<PromptEntry>,
    ms: Seq<MemoryItem>,
    section: Seq<char>,
    requester: Seq<char>,
) -> bool {
    &&& es.len() == ms.len()
    &&& forall|i: int| 0 <= i < es.len() ==> #[trigger] entry_of_memory(es[i], ms[i], section, requester)
}

/// A section switch as the policy map gives it: on unless set to off.
pub open spec fn switch_on(setting: Option<bool>) -> bool {
    match setting {
        Some(b) => b,
        None => true,
    }
}

/// An intensity as the policy map gives it: `normal` unless set.
pub open spec fn intensity_or_normal(setting: Option<Seq<char>>) -> Seq<char> {
    match setting {
        Some(s) => s,
        None => "normal"@,
    }
}

/// A section of given entries: de-duplicated, then cut to its budget.
pub open spec fn section_spec(es: Seq<PromptEntry>, budget: int) -> Seq<PromptEntry> {
    trim_scan(first_entries(es, es.len()), budget as nat, first_entries(es, es.len()).len()).0
}

/// The non-empty memory ids of the entries, in order.
pub open spec fn used_ids(es: Seq<PromptEntry>) -> Seq<Seq<char>>
    decreases es.len(),
{
    if es.len() == 0 {
        Seq::empty()
    } else {
        used_ids(es.drop_last()) + if es.last().memory_id@.len() > 0 {
            seq![es.last().memory_id@]
        } else {
            Seq::empty()
        }
    }
}

fn entries_for(ms: &[MemoryItem], section: &str, requester: &str) -> (r: Vec<PromptEntry>)
    ensures
        entries_of_memories(r@, ms@, section@, requester@),
{
    let mut r: Vec<PromptEntry> = Vec::new();
    let mut i: usize = 0;
    while i < ms.len()
        invariant
            i <= ms@.len(),
            r@.len() == i,
            forall|k: int| 0 <= k < i ==> #[trigger] entry_of_memory(r@[k], ms@[k], section@, requester@),
        decreases ms.len() - i,
    {
        let e = memory_to_prompt_entry(&ms[i], section, requester);
        r.push(e);
        proof {
            assert(entry_of_memory(r@[i as int], ms@[i as int], section@, requester@));
        }
        i = i + 1;
    }
    r
}

fn collect_used_ids(es: &[PromptEntry], out: &mut Vec<String>)
    ensures
        final(out)@.map_values(|s: String| s@) == old(out)@.map_values(|s: String| s@) + used_ids(
            es@,
        ),
{
    let ghost start = out@.map_values(|s: String| s@);
    let mut i: usize = 0;
    proof {
        assert(es@.take(0) =~= Seq::<PromptEntry>::empty());
        assert(start + used_ids(es@.take(0)) =~= start);
    }
    while i < es.len()
        invariant
            i <= es@.len(),
            out@.map_values(|s: String| s@) == start + used_ids(es@.take(i as int)),
        decreases es.len() - i,
    {
        let ghost before = out@.map_values(|s: String| s@);
        proof {
            assert(es@.take(i + 1).drop_last() =~= es@.take(i as int));
            assert(es@.take(i + 1).last() == es@[i as int]);
        }
        if chars_of(es[i].memory_id.as_str()).len() > 0 {
            out.push(es[i].memory_id.clone());
            proof {
                assert(out@.map_values(|s: String| s@) =~= before.push(es@[i as int].memory_id@));
            }
        }
        proof {
            assert(out@.map_values(|s: String| s@) =~= start + used_ids(es@.take(i + 1)));
        }
        i = i + 1;
    }
    proof {
        assert(es@.take(es@.len() as int) =~= es@);
    }
}

fn section_of(policy: &MemoryAccessPolicy, es: &[PromptEntry], budget: usize) -> (r: Vec<PromptEntry>)
    ensures
        r@ == section_spec(es@, budget as int),
{
    let deduped = policy.dedupe_prompt_entries(es);
    trim_entries(&deduped, budget)
}

/// The memory part of a prompt for `requester_user_id`. Every important
/// memory is shown as the requester's own (no metadata marks one as shared
/// or as addressing), so the addressing and shared sections stay empty; the
/// session-restore, precise-recall and dynamic sections take the entries
/// given when their switch is on (unset means on). Each section is
/// de-duplicated and cut to its budget, the last three at their intensity
/// (unset means `normal`). The used memory ids are the non-empty ids of the
/// important, addressing, shared and dynamic sections, in that order, and
/// the text is that of the sections.
pub fn assemble_prompt_context(
    policy: &MemoryAccessPolicy,
    budgets: &PromptBudgets,
    requester_user_id: &str,
    important: &[MemoryItem],
    session_restore: &[PromptEntry],
    precise_recall: &[PromptEntry],
    dynamic: &[PromptEntry],
    switches: (Option<bool>, Option<bool>, Option<bool>),
    intensities: (Option<&str>, Option<&str>, Option<&str>),
) -> (r: PromptContextResult)
    ensures
        exists|ui: Seq<PromptEntry>|
            #![trigger entries_of_memories(ui, important@, "user_important"@, requester_user_id@)]
            entries_of_memories(ui, important@, "user_important"@, requester_user_id@)
                && r.sections.user_important@ == section_spec(ui, budgets.user_important as int),
        r.sections.addressing@.len() == 0,
        r.sections.shared@.len() == 0,
        r.sections.session_restore@ == (if switch_on(switches.0) {
            section_spec(
                session_restore@,
                intensity_budget_spec(
                    *budgets,
                    "session_restore"@,
                    intensity_or_normal(
                        match intensities.0 {
                            Some(s) => Some(s@),
                            None => None,
                        },
                    ),
                ),
            )
        } else {
            Seq::<PromptEntry>::empty()
        }),
        r.sections.precise_recall@ == (if switch_on(switches.1) {
            section_spec(
                precise_recall@,
                intensity_budget_spec(
                    *budgets,
                    "precise_recall"@,
                    intensity_or_normal(
                        match intensities.1 {
                            Some(s) => Some(s@),
                            None => None,
                        },
                    ),
                ),
            )
        } else {
            Seq::<PromptEntry>::empty()
        }),
        r.sections.dynamic@ == (if switch_on(switches.2) {
            section_spec(
                dynamic@,
                intensity_budget_spec(
                    *budgets,
                    "dynamic"@,
                    intensity_or_normal(
                        match intensities.2 {
                            Some(s) => Some(s@),
                            None => None,
                        },
                    ),
                ),
            )
        } else {
            Seq::<PromptEntry>::empty()
        }),
        r.used_memory_ids@.map_values(|s: String| s@) == used_ids(r.sections.user_important@)
            + used_ids(r.sections.addressing@) + used_ids(r.sections.shared@) + used_ids(
            r.sections.dynamic@,
        ),
        r.prompt_text@ == prompt_text_spec(r.sections),
{
    let mut user_pool: Vec<MemoryItem> = Vec::new();
    let mut addressing_pool: Vec<MemoryItem> = Vec::new();
    let mut shared_pool: Vec<MemoryItem> = Vec::new();
    let mut i: usize = 0;
    while i < important.len()
        invariant
            i <= important@.len(),
            user_pool@ == important@.take(i as int),
            addressing_pool@.len() == 0,
            shared_pool@.len() == 0,
        decreases important.len() - i,
    {
        let m = &important[i];
        let class = policy.classify_for_prompt(None, m.user_id.as_str(), requester_user_id);
        let c = chars_of(class);
        if eq_str(&c, "private") {
            user_pool.push(m.duplicate());
        } else if eq_str(&c, "addressing") {
            addressing_pool.push(m.duplicate());
        } else if eq_str(&c, "shared") {
            shared_pool.push(m.duplicate());
        }
        proof {
            assert(user_pool@ =~= important@.take(i + 1));
        }
        i = i + 1;
    }
    proof {
        assert(important@.take(important@.len() as int) =~= important@);
    }
    let user_entries = entries_for(&user_pool, "user_important", requester_user_id);
    let addressing_entries = entries_for(&addressing_pool, "addressing", requester_user_id);
    let shared_entries = entries_for(&shared_pool, "shared", requester_user_id);
    let on_restore = match switches.0 {
        Some(b) => b,
        None => true,
    };
    let on_precise = match switches.1 {
        Some(b) => b,
        None => true,
    };
    let on_dynamic = match switches.2 {
        Some(b) => b,
        None => true,
    };
    let restore_intensity = match intensities.0 {
        Some(s) => s,
        None => "normal",
    };
    let precise_intensity = match intensities.1 {
        Some(s) => s,
        None => "normal",
    };
    let dynamic_intensity = match intensities.2 {
        Some(s) => s,
        None => "normal",
    };
    let no_entries: Vec<PromptEntry> = Vec::new();
    let restore_in: &[PromptEntry] = if on_restore {
        session_restore
    } else {
        &no_entries
    };
    let precise_in: &[PromptEntry] = if on_precise {
        precise_recall
    } else {
        &no_entries
    };
    let dynamic_in: &[PromptEntry] = if on_dynamic {
        dynamic
    } else {
        &no_entries
    };
    let sections = PromptSections {
        user_important: section_of(policy, &user_entries, budgets.user_important),
        addressing: section_of(policy, &addressing_entries, budgets.addressing),
        shared: section_of(policy, &shared_entries, budgets.shared),
        session_restore: section_of(
            policy,
            restore_in,
            budget_for_intensity(budgets, "session_restore", restore_intensity),
        ),
        precise_recall: section_of(
            policy,
            precise_in,
            budget_for_intensity(budgets, "precise_recall", precise_intensity),
        ),
        dynamic: section_of(
            policy,
            dynamic_in,
            budget_for_intensity(budgets, "dynamic", dynamic_intensity),
        ),
    };
    let mut used: Vec<String> = Vec::new();
    proof {
        assert(used@.map_values(|s: String| s@) =~= Seq::<Seq<char>>::empty());
    }
    collect_used_ids(&sections.user_important, &mut used);
    collect_used_ids(&sections.addressing, &mut used);
    collect_used_ids(&sections.shared, &mut used);
    collect_used_ids(&sections.dynamic, &mut used);
    let prompt_text = build_prompt_text(&sections);
    proof {
        reveal_strlit("normal");
        assert(entries_of_memories(user_entries@, important@, "user_important"@, requester_user_id@));
    }
    PromptContextResult { prompt_text, sections, used_memory_ids: used }
}

} // verus!
