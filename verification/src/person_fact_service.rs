//! Which memories become facts about a person, under which category.
use vstd::prelude::*;
use crate::core_types::{MemoryItem, MemoryType};
use crate::text::{
    byte_len, chars_eq, chars_of, concat_chars, keeps, lowercase_of, retain_class, string_of,
    to_lowercase, trim, trim_spec, utf8_len, KeepClass,
};

verus! {

/// Lower-cased `text` with only its alphanumeric characters.
pub open spec fn normalized_spec(text: Seq<char>) -> Seq<char> {
    lowercase_of(text).filter(|c: char| keeps(KeepClass::Alnum, c))
}

/// Lower-cased `text` with only its alphanumeric characters.
pub fn normalize_text(text: &str) -> (r: String)
    ensures
        r@ == normalized_spec(text@),
{
    string_of(&retain_class(&to_lowercase(&chars_of(text)), KeepClass::Alnum))
}

/// A memory can stand as a fact when its trimmed content has at least three
/// UTF-8 bytes and it is not an event.
pub open spec fn usable_as_fact(memory: MemoryItem) -> bool {
    utf8_len(trim_spec(memory.content@)) >= 3 && memory.memory_type != MemoryType::Event
}

/// The fact category of a memory type.
pub open spec fn fact_category_spec(t: MemoryType) -> Seq<char> {
    match t {
        MemoryType::Preference => "preference"@,
        MemoryType::Fact => "profile"@,
        MemoryType::Opinion => "boundary"@,
        MemoryType::Relationship => "background"@,
        MemoryType::Event => "plan"@,
    }
}

/// Whether `memory` can stand as a fact about its owner.
pub fn should_use_as_fact(memory: &MemoryItem) -> (r: bool)
    ensures
        r == usable_as_fact(*memory),
{
    let content = string_of(&trim(&chars_of(memory.content.as_str())));
    if byte_len(content.as_str()) < 3 {
        return false;
    }
    match memory.memory_type {
        MemoryType::Event => false,
        _ => true,
    }
}

/// The fact category of `memory`.
pub fn infer_fact_category(memory: &MemoryItem) -> (r: String)
    ensures
        r@ == fact_category_spec(memory.memory_type),
{
    match memory.memory_type {
        MemoryType::Preference => "preference".to_string(),
        MemoryType::Fact => "profile".to_string(),
        MemoryType::Opinion => "boundary".to_string(),
        MemoryType::Relationship => "background".to_string(),
        MemoryType::Event => "plan".to_string(),
    }
}

} // verus!

verus! {

/// A fact drawn from a memory, before it is timed and scored.
pub struct FactDraft {
    pub id: String,
    pub user_id: String,
    pub fact_text: String,
    pub category: String,
    /// Position of the memory it came from.
    pub source: usize,
}

/// The key under which two facts are the same: category and normalised text.
pub open spec fn fact_key(m: MemoryItem) -> (Seq<char>, Seq<char>) {
    (fact_category_spec(m.memory_type), normalized_spec(trim_spec(m.content@)))
}

/// The positions of the memories, among the first `n`, that become facts:
/// usable as facts, with a non-empty normalised text, and not repeating
/// the key of an earlier fact.
pub open spec fn fact_sources(ms: Seq<MemoryItem>, n: nat) -> Seq<int>
    decreases n,
{
    if n == 0 || n > ms.len() {
        Seq::empty()
    } else {
        let prev = fact_sources(ms, (n - 1) as nat);
        let m = ms[n - 1];
        if !usable_as_fact(m) || fact_key(m).1.len() == 0 || exists|t: int|
            0 <= t < prev.len() && fact_key(ms[#[trigger] prev[t]]) == fact_key(m) {
            prev
        } else {
            prev.push(n - 1)
        }
    }
}

/// The draft of the fact drawn from `m` for `user_id`.
pub open spec fn draft_spec(user_id: Seq<char>, m: MemoryItem) -> (Seq<char>, Seq<char>, Seq<char>) {
    let k = fact_key(m);
    (user_id + "_"@ + k.0 + "_"@ + k.1, trim_spec(m.content@), k.0)
}


/// `d` is the draft of the fact drawn from the memory at `src` for `user`.
pub open spec fn draft_of(ms: Seq<MemoryItem>, user: Seq<char>, d: FactDraft, src: int) -> bool {
    let e = draft_spec(user, ms[src]);
    &&& d.source == src
    &&& d.id@ == e.0
    &&& d.fact_text@ == e.1
    &&& d.category@ == e.2
    &&& d.user_id@ == user
}

spec fn draft_at(ms: Seq<MemoryItem>, user: Seq<char>, d: FactDraft, k: (Vec<char>, Vec<char>), src: int, bound: int) -> bool {
    &&& 0 <= src < bound
    &&& draft_of(ms, user, d, src)
    &&& k.0@ == fact_key(ms[src]).0
    &&& k.1@ == fact_key(ms[src]).1
}

spec fn drafts_match(
    ms: Seq<MemoryItem>,
    user: Seq<char>,
    out: Seq<FactDraft>,
    keys: Seq<(Vec<char>, Vec<char>)>,
    srcs: Seq<int>,
    bound: int,
) -> bool {
    &&& out.len() == srcs.len()
    &&& keys.len() == srcs.len()
    &&& forall|t: int| 0 <= t < out.len() ==> #[trigger] draft_at(ms, user, out[t], keys[t], srcs[t], bound)
}

proof fn lemma_drafts_match_grow(
    ms: Seq<MemoryItem>,
    user: Seq<char>,
    out: Seq<FactDraft>,
    keys: Seq<(Vec<char>, Vec<char>)>,
    srcs: Seq<int>,
    bound: int,
)
    requires
        drafts_match(ms, user, out, keys, srcs, bound),
    ensures
        drafts_match(ms, user, out, keys, srcs, bound + 1),
{
    assert forall|t: int| 0 <= t < out.len() implies #[trigger] draft_at(ms, user, out[t], keys[t], srcs[t], bound + 1) by {
        assert(draft_at(ms, user, out[t], keys[t], srcs[t], bound));
    }
}

/// The facts about `user_id` drawn from `memories`, in their order: one per
/// category and normalised text, from memories that can stand as facts.
pub fn fact_drafts(user_id: &str, memories: &[MemoryItem]) -> (r: Vec<FactDraft>)
    ensures
        r@.len() == fact_sources(memories@, memories@.len()).len(),
        forall|i: int|
            0 <= i < r@.len() ==> draft_of(
                memories@,
                user_id@,
                #[trigger] r@[i],
                fact_sources(memories@, memories@.len())[i],
            ),
{
    let mut out: Vec<FactDraft> = Vec::new();
    let mut keys: Vec<(Vec<char>, Vec<char>)> = Vec::new();
    let mut i: usize = 0;
    while i < memories.len()
        invariant
            i <= memories@.len(),
            drafts_match(memories@, user_id@, out@, keys@, fact_sources(memories@, i as nat), i as int),
        decreases memories.len() - i,
    {
        let ghost prev = fact_sources(memories@, i as nat);
        let m = &memories[i];
        if should_use_as_fact(m) {
            let category = infer_fact_category(m);
            let content = trim(&chars_of(m.content.as_str()));
            let normalized = chars_of(normalize_text(string_of(&content).as_str()).as_str());
            if normalized.len() > 0 {
                let cat = chars_of(category.as_str());
                proof {
                    assert forall|q: int| 0 <= q < keys@.len() implies #[trigger] keys@[q].0@ == fact_key(
                        memories@[prev[q]],
                    ).0 && keys@[q].1@ == fact_key(memories@[prev[q]]).1 by {
                        assert(draft_at(memories@, user_id@, out@[q], keys@[q], prev[q], i as int));
                    }
                }
                let mut seen = false;
                let mut t: usize = 0;
                while t < keys.len()
                    invariant
                        t <= keys@.len(),
                        keys@.len() == prev.len(),
                        forall|q: int| 0 <= q < keys@.len() ==> #[trigger] keys@[q].0@ == fact_key(memories@[prev[q]]).0 && keys@[q].1@ == fact_key(memories@[prev[q]]).1,
                        !seen ==> forall|q: int| 0 <= q < t ==> fact_key(memories@[#[trigger] prev[q]]) != (cat@, normalized@),
                        seen ==> exists|q: int| 0 <= q < prev.len() && fact_key(memories@[#[trigger] prev[q]]) == (cat@, normalized@),
                    decreases keys.len() - t,
                {
                    if !seen && chars_eq(&keys[t].0, &cat) && chars_eq(&keys[t].1, &normalized) {
                        seen = true;
                        proof {
                            assert(fact_key(memories@[prev[t as int]]) == (cat@, normalized@));
                        }
                    }
                    t = t + 1;
                }
                if !seen {
                    let id = concat_chars(
                        &concat_chars(
                            &concat_chars(&concat_chars(&chars_of(user_id), &chars_of("_")), &cat),
                            &chars_of("_"),
                        ),
                        &normalized,
                    );
                    let ghost before_out = out@;
                    let ghost before_keys = keys@;
                    out.push(
                        FactDraft {
                            id: string_of(&id),
                            user_id: user_id.to_string(),
                            fact_text: string_of(&content),
                            category,
                            source: i,
                        },
                    );
                    keys.push((cat, normalized));
                    proof {
                        assert(fact_key(*m) == (cat@, normalized@));
                        assert(fact_sources(memories@, (i + 1) as nat) == prev.push(i as int));
                        let srcs = fact_sources(memories@, (i + 1) as nat);
                        assert forall|t: int| 0 <= t < out@.len() implies #[trigger] draft_at(
                            memories@,
                            user_id@,
                            out@[t],
                            keys@[t],
                            srcs[t],
                            i + 1,
                        ) by {
                            if t < before_out.len() {
                                assert(out@[t] == before_out[t]);
                                assert(keys@[t] == before_keys[t]);
                                assert(srcs[t] == prev[t]);
                                assert(draft_at(memories@, user_id@, before_out[t], before_keys[t], prev[t], i as int));
                            } else {
                                assert(srcs[t] == i as int);
                                assert(keys@[t] == (cat, normalized));
                                assert(out@[t].id@ == id@);
                                assert(id@ =~= user_id@ + "_"@ + cat@ + "_"@ + normalized@);
                            }
                        }
                    }
                } else {
                    proof {
                        assert(fact_key(*m) == (cat@, normalized@));
                        assert(fact_sources(memories@, (i + 1) as nat) == prev);
                        lemma_drafts_match_grow(memories@, user_id@, out@, keys@, prev, i as int);
                    }
                }
            } else {
                proof {
                    assert(fact_sources(memories@, (i + 1) as nat) == prev);
                    lemma_drafts_match_grow(memories@, user_id@, out@, keys@, prev, i as int);
                }
            }
        } else {
            proof {
                assert(fact_sources(memories@, (i + 1) as nat) == prev);
                lemma_drafts_match_grow(memories@, user_id@, out@, keys@, prev, i as int);
            }
        }
        i = i + 1;
    }
    proof {
        let srcs = fact_sources(memories@, memories@.len());
        assert forall|t: int| 0 <= t < out@.len() implies draft_of(memories@, user_id@, #[trigger] out@[t], srcs[t]) by {
            assert(draft_at(memories@, user_id@, out@[t], keys@[t], srcs[t], memories@.len() as int));
        }
    }
    out
}

} // verus!
