//! The sameness test of important memories, and what adding one does.
use vstd::prelude::*;
use crate::text::{
    byte_len, chars_eq, chars_of, contains, contains_spec, keeps, lowercase_of, retain_class,
    string_of, to_lowercase, trim, trim_spec, utf8_len, eq_str, KeepClass,
};

verus! {

/// Lower-cased `text` with only alphanumeric characters, spaces and CJK
/// ideographs, trimmed.
pub open spec fn normalized_spec(text: Seq<char>) -> Seq<char> {
    trim_spec(lowercase_of(text).filter(|c: char| keeps(KeepClass::AlnumSpaceOrCjk, c)))
}

/// Lower-cased `text` with only alphanumeric characters, spaces and CJK
/// ideographs, trimmed.
pub fn normalize_text(text: &str) -> (r: String)
    ensures
        r@ == normalized_spec(text@),
{
    let lowered = to_lowercase(&chars_of(text));
    let kept = retain_class(&lowered, KeepClass::AlnumSpaceOrCjk);
    string_of(&trim(&kept))
}

/// Two important memories are the same when their normalised texts are
/// equal, or when one occurs in the other, the shorter has at least three
/// characters and at least half as many as the longer.
pub open spec fn same_memory_spec(left: Seq<char>, right: Seq<char>) -> bool {
    let nl = normalized_spec(left);
    let nr = normalized_spec(right);
    if nl.len() == 0 || nr.len() == 0 {
        false
    } else if nl == nr {
        true
    } else {
        let shorter = if nl.len() <= nr.len() {
            nl.len()
        } else {
            nr.len()
        };
        let longer = if nl.len() <= nr.len() {
            nr.len()
        } else {
            nl.len()
        };
        shorter >= 3 && (contains_spec(nl, nr) || contains_spec(nr, nl)) && 2 * shorter >= longer
    }
}

/// Whether `left` and `right` are the same important memory.
pub fn is_same_memory(left: &str, right: &str) -> (r: bool)
    ensures
        r == same_memory_spec(left@, right@),
{
    let nl = chars_of(normalize_text(left).as_str());
    let nr = chars_of(normalize_text(right).as_str());
    if nl.len() == 0 || nr.len() == 0 {
        return false;
    }
    if chars_eq(&nl, &nr) {
        return true;
    }
    let (shorter, longer) = if nl.len() <= nr.len() {
        (nl.len(), nr.len())
    } else {
        (nr.len(), nl.len())
    };
    if shorter < 3 {
        return false;
    }
    if contains(&nl, &nr) || contains(&nr, &nl) {
        return (shorter as u128) * 2 >= longer as u128;
    }
    false
}

} // verus!

verus! {

/// Sameness of important memories does not depend on the order of the two.
pub proof fn law_same_memory_symmetric(left: Seq<char>, right: Seq<char>)
    ensures
        same_memory_spec(left, right) == same_memory_spec(right, left),
{
}

/// A memory whose normalised text is not empty is the same as itself.
pub proof fn law_same_memory_reflexive(text: Seq<char>)
    ensures
        same_memory_spec(text, text) == (normalized_spec(text).len() > 0),
{
}


/// What the merge reads of an important memory already stored.
pub struct StoredImportant {
    pub content: String,
    pub source: String,
    pub priority: i32,
}

/// What adding an important memory does.
pub enum ImportantAddition {
    /// The content is blank: nothing is stored.
    Nothing,
    /// The stored memory at `index` is the same one; it takes these values.
    Merge { index: usize, content: String, source: String, priority: i32 },
    /// A new memory with these values.
    Create { content: String, source: String, priority: i32 },
}

/// The priority a new important memory is given: at least 1.
pub open spec fn floor_priority(priority: i32) -> i32 {
    if priority >= 1 {
        priority
    } else {
        1
    }
}

/// The content a merge keeps: the new text where it is longer in bytes.
pub open spec fn merged_content(stored: Seq<char>, new_text: Seq<char>) -> Seq<char> {
    if utf8_len(new_text) > utf8_len(stored) {
        new_text
    } else {
        stored
    }
}

/// The source a merge keeps: the new one where it is empty or the stored
/// one is "unknown", else the stored one.
pub open spec fn merged_source(stored: Seq<char>, new_source: Seq<char>) -> Seq<char> {
    if new_source.len() == 0 || stored == "unknown"@ {
        new_source
    } else {
        stored
    }
}

/// None of the first `n` stored memories is the same as `text`.
pub open spec fn none_same(existing: Seq<StoredImportant>, text: Seq<char>, n: int) -> bool {
    forall|j: int| 0 <= j < n ==> !same_memory_spec(#[trigger] existing[j].content@, text)
}

/// What adding `content` from `source` with `priority` does, given the
/// stored memories in the order they are read: nothing for blank content;
/// else the first stored memory that is the same takes the higher priority,
/// the longer text and the source kept by `merged_source`; where none is
/// the same, a new memory with the trimmed text and a priority of at least 1.
pub fn plan_important_addition(
    existing: &[StoredImportant],
    content: &str,
    source: &str,
    priority: i32,
) -> (r: ImportantAddition)
    ensures
        ({
            let c = trim_spec(content@);
            let p = floor_priority(priority);
            match r {
                ImportantAddition::Nothing => c.len() == 0,
                ImportantAddition::Merge { index, content: nc, source: ns, priority: np } => {
                    &&& c.len() > 0
                    &&& index < existing@.len()
                    &&& same_memory_spec(existing@[index as int].content@, c)
                    &&& none_same(existing@, c, index as int)
                    &&& nc@ == merged_content(existing@[index as int].content@, c)
                    &&& ns@ == merged_source(existing@[index as int].source@, source@)
                    &&& np == (if existing@[index as int].priority >= p {
                        existing@[index as int].priority
                    } else {
                        p
                    })
                },
                ImportantAddition::Create { content: nc, source: ns, priority: np } => {
                    &&& c.len() > 0
                    &&& none_same(existing@, c, existing@.len() as int)
                    &&& nc@ == c
                    &&& ns@ == source@
                    &&& np == p
                },
            }
        }),
{
    let cv = trim(&chars_of(content));
    if cv.len() == 0 {
        return ImportantAddition::Nothing;
    }
    let c = string_of(&cv);
    let p: i32 = if priority >= 1 {
        priority
    } else {
        1
    };
    let mut i: usize = 0;
    while i < existing.len()
        invariant
            i <= existing@.len(),
            c@ == trim_spec(content@),
            c@.len() > 0,
            p == floor_priority(priority),
            none_same(existing@, c@, i as int),
        decreases existing.len() - i,
    {
        let mem = &existing[i];
        if is_same_memory(mem.content.as_str(), c.as_str()) {
            let new_priority = if mem.priority >= p {
                mem.priority
            } else {
                p
            };
            let new_content = if byte_len(c.as_str()) > byte_len(mem.content.as_str()) {
                c.clone()
            } else {
                mem.content.clone()
            };
            let new_source = if chars_of(source).len() == 0 || eq_str(&chars_of(mem.source.as_str()), "unknown") {
                source.to_string()
            } else {
                mem.source.clone()
            };
            return ImportantAddition::Merge {
                index: i,
                content: new_content,
                source: new_source,
                priority: new_priority,
            };
        }
        i = i + 1;
    }
    ImportantAddition::Create { content: c, source: source.to_string(), priority: p }
}

} // verus!
