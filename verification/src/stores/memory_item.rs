//! Names of memory types and the sameness test of ordinary memories.
use vstd::prelude::*;
use crate::core_types::{memory_type_spec, MemoryType};
use crate::text::{
    byte_len, chars_eq, chars_of, contains, contains_spec, eq_str, keeps,
    lemma_utf8_len_add, lemma_utf8_len_at_least_chars, lowercase_of, occurs_at, retain_class,
    string_of, to_lowercase, trim, trim_spec, utf8_len, KeepClass,
};

verus! {

/// The stored name of a memory type.
pub fn memory_type_to_str(mt: &MemoryType) -> (r: &'static str)
    ensures
        r@ == memory_type_spec(*mt),
{
    match mt {
        MemoryType::Fact => "fact",
        MemoryType::Preference => "preference",
        MemoryType::Event => "event",
        MemoryType::Opinion => "opinion",
        MemoryType::Relationship => "relationship",
    }
}

/// The memory type stored under `name`; unknown names read as facts.
pub open spec fn memory_type_of(name: Seq<char>) -> MemoryType {
    if name == "fact"@ {
        MemoryType::Fact
    } else if name == "preference"@ {
        MemoryType::Preference
    } else if name == "event"@ {
        MemoryType::Event
    } else if name == "opinion"@ {
        MemoryType::Opinion
    } else if name == "relationship"@ {
        MemoryType::Relationship
    } else {
        MemoryType::Fact
    }
}

/// The memory type stored under `s`; unknown names read as facts.
pub fn str_to_memory_type(s: &str) -> (r: MemoryType)
    ensures
        r == memory_type_of(s@),
{
    let c = chars_of(s);
    if eq_str(&c, "fact") {
        MemoryType::Fact
    } else if eq_str(&c, "preference") {
        MemoryType::Preference
    } else if eq_str(&c, "event") {
        MemoryType::Event
    } else if eq_str(&c, "opinion") {
        MemoryType::Opinion
    } else if eq_str(&c, "relationship") {
        MemoryType::Relationship
    } else {
        MemoryType::Fact
    }
}

/// Lower-cased `text` with only alphanumeric characters and CJK ideographs,
/// trimmed.
pub open spec fn normalized_spec(text: Seq<char>) -> Seq<char> {
    trim_spec(lowercase_of(text).filter(|c: char| keeps(KeepClass::AlnumOrCjk, c)))
}

/// Lower-cased `text` with only alphanumeric characters and CJK ideographs,
/// trimmed.
pub fn normalize_text(text: &str) -> (r: String)
    ensures
        r@ == normalized_spec(text@),
{
    let lowered = to_lowercase(&chars_of(text));
    let kept = retain_class(&lowered, KeepClass::AlnumOrCjk);
    string_of(&trim(&kept))
}

/// Two memories are the same when their normalised texts are equal, or when
/// the shorter (in UTF-8 bytes, at least 4) occurs in the longer and has at
/// least three quarters of its bytes.
pub open spec fn same_memory_spec(left: Seq<char>, right: Seq<char>) -> bool {
    let nl = normalized_spec(left);
    let nr = normalized_spec(right);
    if nl.len() == 0 || nr.len() == 0 {
        false
    } else if nl == nr {
        true
    } else {
        let shorter = if utf8_len(nl) <= utf8_len(nr) {
            nl
        } else {
            nr
        };
        let longer = if utf8_len(nl) <= utf8_len(nr) {
            nr
        } else {
            nl
        };
        utf8_len(shorter) >= 4 && contains_spec(longer, shorter) && 4 * utf8_len(shorter) >= 3
            * utf8_len(longer)
    }
}

/// Whether `left` and `right` are the same memory.
pub fn is_same_memory(left: &str, right: &str) -> (r: bool)
    ensures
        r == same_memory_spec(left@, right@),
{
    let nl = normalize_text(left);
    let nr = normalize_text(right);
    let cl = chars_of(nl.as_str());
    let cr = chars_of(nr.as_str());
    if cl.len() == 0 || cr.len() == 0 {
        return false;
    }
    if chars_eq(&cl, &cr) {
        return true;
    }
    let bl = byte_len(nl.as_str());
    let br = byte_len(nr.as_str());
    let (shorter, longer, bs, blong) = if bl <= br {
        (&cl, &cr, bl, br)
    } else {
        (&cr, &cl, br, bl)
    };
    if bs < 4 {
        return false;
    }
    contains(longer, shorter) && (bs as u128) * 4 >= (blong as u128) * 3
}

} // verus!

verus! {

/// A piece of `l` with at least as many UTF-8 bytes as `l` is all of `l`.
proof fn lemma_piece_as_long_is_whole(l: Seq<char>, s: Seq<char>, i: int)
    requires
        occurs_at(l, s, i),
        utf8_len(s) >= utf8_len(l),
    ensures
        s == l,
{
    let head = l.take(i);
    let tail = l.skip(i + s.len());
    assert(l =~= head + s + tail);
    lemma_utf8_len_add(head + s, tail);
    lemma_utf8_len_add(head, s);
    lemma_utf8_len_at_least_chars(head);
    lemma_utf8_len_at_least_chars(tail);
    assert(head.len() == 0 && tail.len() == 0);
    assert(l =~= s);
}

/// Sameness of memories does not depend on the order of the two.
pub proof fn law_same_memory_symmetric(left: Seq<char>, right: Seq<char>)
    ensures
        same_memory_spec(left, right) == same_memory_spec(right, left),
{
    let nl = normalized_spec(left);
    let nr = normalized_spec(right);
    if nl.len() > 0 && nr.len() > 0 && nl != nr && utf8_len(nl) == utf8_len(nr) {
        if contains_spec(nr, nl) {
            let i = choose|i: int| occurs_at(nr, nl, i);
            lemma_piece_as_long_is_whole(nr, nl, i);
        }
        if contains_spec(nl, nr) {
            let i = choose|i: int| occurs_at(nl, nr, i);
            lemma_piece_as_long_is_whole(nl, nr, i);
        }
    }
}

/// A memory whose normalised text is not empty is the same as itself.
pub proof fn law_same_memory_reflexive(text: Seq<char>)
    ensures
        same_memory_spec(text, text) == (normalized_spec(text).len() > 0),
{
}

} // verus!
