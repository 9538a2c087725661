//! Stance and topic cues used when new memories are checked against old ones.
use vstd::prelude::*;
use vstd::relations::injective_on;
use crate::core_types::MemoryItem;
use crate::text::{
    alphanumeric, chars_eq, lowercase_of, to_lowercase, chars_of, concat_chars, contains, contains_spec, decimal_spec, decimal_u64,
    distinct_chars, is_cjk, join_chars, join_with, keeps, remove_all, remove_all_spec,
    retain_class, shared_distinct_count, string_of, trim, trim_spec, views, KeepClass,
    first_index, first_index_of, last_index, last_index_of, lemma_first_index_bounds,
    lemma_last_index_bounds, sub_chars,
};

verus! {

/// Settings of the conflict check between new and existing memories.
pub struct MemoryReflection {
    pub model: String,
    pub max_retries: usize,
}

impl MemoryReflection {
    /// A checker that asks `model`, with three attempts.
    pub fn new(model: &str) -> (r: Self)
        ensures
            r.model@ == model@,
            r.max_retries == 3,
    {
        MemoryReflection { model: model.to_string(), max_retries: 3 }
    }
}

/// Phrases that mark a negative stance ("dislike", "refuse", ...).
pub open spec fn negative_cues() -> Seq<Seq<char>> {
    seq![
        "不喜欢"@, "讨厌"@, "不想"@, "不要"@, "不喝"@, "不吃"@, "不再"@, "不愿意"@, "拒绝"@,
        "别再"@, "不能接受"@, "没兴趣"@,
    ]
}

/// Words of stance and time that do not name a topic, removed in this order.
pub open spec fn stance_terms() -> Seq<Seq<char>> {
    seq![
        "喜欢"@, "讨厌"@, "不喜欢"@, "不想"@, "想"@, "想要"@, "不要"@, "愿意"@, "不愿意"@, "爱"@,
        "不爱"@, "偏好"@, "习惯"@, "最近"@, "现在"@, "目前"@, "今天"@, "这几天"@, "暂时"@,
        "先"@, "喝"@, "吃"@, "用"@,
    ]
}

fn negative_cue_list() -> (r: Vec<&'static str>)
    ensures
        r@.len() == negative_cues().len(),
        forall|i: int| 0 <= i < r@.len() ==> #[trigger] r@[i]@ == negative_cues()[i],
{
    let r = vec![
        "不喜欢", "讨厌", "不想", "不要", "不喝", "不吃", "不再", "不愿意", "拒绝", "别再",
        "不能接受", "没兴趣",
    ];
    r
}

fn stance_term_list() -> (r: Vec<&'static str>)
    ensures
        r@.len() == stance_terms().len(),
        forall|i: int| 0 <= i < r@.len() ==> #[trigger] r@[i]@ == stance_terms()[i],
{
    let r = vec![
        "喜欢", "讨厌", "不喜欢", "不想", "想", "想要", "不要", "愿意", "不愿意", "爱", "不爱",
        "偏好", "习惯", "最近", "现在", "目前", "今天", "这几天", "暂时", "先", "喝", "吃", "用",
    ];
    r
}

/// `s` after removing each of `terms` in turn.
pub open spec fn remove_terms(s: Seq<char>, terms: Seq<Seq<char>>) -> Seq<char>
    decreases terms.len(),
{
    if terms.len() == 0 {
        s
    } else {
        remove_all_spec(remove_terms(s, terms.drop_last()), terms.last())
    }
}

/// What is left of `text` as a topic: stance terms removed, then only
/// alphanumeric characters and CJK ideographs kept.
pub open spec fn stance_stripped(text: Seq<char>) -> Seq<char> {
    remove_terms(text, stance_terms()).filter(|c: char| keeps(KeepClass::AlnumOrCjk, c))
}

/// `text` holds one of the negative cues.
pub open spec fn negative_stance_spec(text: Seq<char>) -> bool {
    exists|i: int| 0 <= i < negative_cues().len() && contains_spec(text, #[trigger] negative_cues()[i])
}

/// The topic of `text`: stance terms removed, then only alphanumeric
/// characters and CJK ideographs kept.
pub fn strip_stance_terms(text: &str) -> (r: String)
    ensures
        r@ == stance_stripped(text@),
        forall|i: int| 0 <= i < r@.len() ==> alphanumeric(#[trigger] r@[i]) || is_cjk(r@[i]),
{
    let terms = stance_term_list();
    let mut cur = chars_of(text);
    let mut k: usize = 0;
    proof {
        assert(stance_terms().take(0) =~= Seq::<Seq<char>>::empty());
    }
    while k < terms.len()
        invariant
            k <= terms@.len(),
            terms@.len() == stance_terms().len(),
            forall|i: int| 0 <= i < terms@.len() ==> #[trigger] terms@[i]@ == stance_terms()[i],
            cur@ == remove_terms(text@, stance_terms().take(k as int)),
        decreases terms.len() - k,
    {
        let t = chars_of(terms[k]);
        proof {
            let pre = stance_terms().take(k + 1);
            assert(pre.drop_last() =~= stance_terms().take(k as int));
            assert(pre.last() == stance_terms()[k as int]);
        }
        cur = remove_all(&cur, &t);
        k = k + 1;
    }
    proof {
        assert(stance_terms().take(stance_terms().len() as int) =~= stance_terms());
    }
    let kept = retain_class(&cur, KeepClass::AlnumOrCjk);
    proof {
        assert forall|i: int| 0 <= i < kept@.len() implies alphanumeric(#[trigger] kept@[i])
            || is_cjk(kept@[i]) by {
            cur@.lemma_filter_pred(|c: char| keeps(KeepClass::AlnumOrCjk, c), i);
        }
    }
    string_of(&kept)
}

/// Whether `text` holds a cue of a negative stance ("不喜欢", "讨厌", ...).
pub fn has_negative_stance(text: &str) -> (r: bool)
    ensures
        r == negative_stance_spec(text@),
{
    let cues = negative_cue_list();
    let hay = chars_of(text);
    let mut k: usize = 0;
    while k < cues.len()
        invariant
            k <= cues@.len(),
            cues@.len() == negative_cues().len(),
            forall|i: int| 0 <= i < cues@.len() ==> #[trigger] cues@[i]@ == negative_cues()[i],
            hay@ == text@,
            forall|i: int| 0 <= i < k ==> !contains_spec(text@, #[trigger] negative_cues()[i]),
        decreases cues.len() - k,
    {
        let cue = chars_of(cues[k]);
        if contains(&hay, &cue) {
            return true;
        }
        k = k + 1;
    }
    false
}

} // verus!

verus! {

/// How much two topics overlap, as a fraction: the distinct characters they
/// share over the distinct characters of the smaller one; 0 over 1 when
/// either is empty. The denominator is never 0.
pub open spec fn topic_overlap_spec(left: Seq<char>, right: Seq<char>) -> (nat, nat) {
    if left.len() == 0 || right.len() == 0 {
        (0, 1)
    } else {
        let l = left.to_set().len();
        let r = right.to_set().len();
        (left.to_set().intersect(right.to_set()).len(), if l <= r {
            l
        } else {
            r
        })
    }
}

/// No set of characters has more members than there are characters.
proof fn lemma_char_set_len(s: Set<char>)
    requires
        s.finite(),
    ensures
        s.len() <= 0x110000,
{
    let f = |c: char| (c as u32) as int;
    let y = s.map(f);
    assert(injective_on(f, s)) by {
        assert forall|a: char, b: char| s.contains(a) && s.contains(b) && #[trigger] f(a) == #[trigger] f(b) implies a == b by {
            vstd::utf8::char_u32_cast(a, a as u32);
            vstd::utf8::char_u32_cast(b, b as u32);
        }
    }
    vstd::set_lib::lemma_map_size(s, y, f);
    vstd::set_lib::lemma_int_range(0, 0x110000);
    assert(y.subset_of(vstd::set_lib::set_int_range(0, 0x110000))) by {
        assert forall|v: int| y.contains(v) implies vstd::set_lib::set_int_range(0, 0x110000).contains(v) by {
            let c = choose|c: char| s.contains(c) && f(c) == v;
            vstd::utf8::char_is_scalar(c);
        }
    }
    vstd::set_lib::lemma_len_subset(y, vstd::set_lib::set_int_range(0, 0x110000));
}

/// The overlap of two topics is a fraction of at most one, whose
/// denominator is at most the number of characters there are.
pub proof fn lemma_topic_overlap_bounds(left: Seq<char>, right: Seq<char>)
    ensures
        topic_overlap_spec(left, right).0 <= topic_overlap_spec(left, right).1,
        0 < topic_overlap_spec(left, right).1 <= 0x110000,
{
    if left.len() > 0 && right.len() > 0 {
        let a = left.to_set();
        let b = right.to_set();
        vstd::seq_lib::seq_to_set_is_finite(left);
        vstd::seq_lib::seq_to_set_is_finite(right);
        assert(a.contains(left[0]));
        assert(b.contains(right[0]));
        vstd::set_lib::lemma_len_intersect(a, b);
        vstd::set_lib::lemma_len_intersect(b, a);
        assert(a.intersect(b) =~= b.intersect(a));
        lemma_char_set_len(a);
        lemma_char_set_len(b);
    }
}

/// How much two topics overlap, as (shared distinct characters, distinct
/// characters of the smaller topic).
pub fn topic_overlap_parts(left: &str, right: &str) -> (r: (usize, usize))
    ensures
        r.0 as nat == topic_overlap_spec(left@, right@).0,
        r.1 as nat == topic_overlap_spec(left@, right@).1,
        r.1 > 0,
{
    let l = chars_of(left);
    let rr = chars_of(right);
    if l.len() == 0 || rr.len() == 0 {
        return (0, 1);
    }
    let dl = distinct_chars(&l);
    let dr = distinct_chars(&rr);
    proof {
        assert(l@.to_set().contains(l@[0]));
        assert(rr@.to_set().contains(rr@[0]));
        assert(dl@.to_set().contains(l@[0]));
        assert(dr@.to_set().contains(rr@[0]));
    }
    let shared = shared_distinct_count(&l, &rr);
    let smaller = if dl.len() <= dr.len() {
        dl.len()
    } else {
        dr.len()
    };
    (shared, smaller)
}

} // verus!

verus! {

/// A dialogue turn as evidence reads it. Each field holds the value under
/// its key where that value is of the kind named (an unsigned integer, a
/// text), and nothing where the key is absent or holds another kind.
pub struct AnchorTurn {
    pub turn_id: Option<u64>,
    pub user: Option<String>,
    pub session_id: Option<String>,
    pub source_group_id: Option<String>,
}

/// The metadata of an existing memory as evidence reads it. The turn bounds
/// hold the value under their key where it is an unsigned integer; the other
/// fields hold the value under their key, of any kind, where the key is present.
pub struct CandidateMetadata<V> {
    pub source_session_id: Option<V>,
    pub source_turn_start: Option<u64>,
    pub source_turn_end: Option<u64>,
    pub source_group_id: Option<V>,
    pub group_id: Option<V>,
}

/// An existing memory that may conflict with the new one. Each field holds
/// the value under its key, of any kind, where the key is present; evidence
/// passes these values on untouched.
pub struct ConflictCandidate<V> {
    pub id: Option<V>,
    pub kind: Option<V>,
    pub content: Option<V>,
    pub metadata: CandidateMetadata<V>,
}

/// One piece of evidence for a reflection.
#[allow(inconsistent_fields)]
pub enum EvidenceEntry<V> {
    /// The new memory: the turns it was drawn from and what the user said there.
    NewMemory {
        turn_range: String,
        source_session_id: String,
        source_group_id: String,
        quote: String,
    },
    /// An existing memory. A value left empty was absent from the candidate;
    /// an empty `memory_type` stands for the kind "ordinary".
    ExistingMemory {
        memory_id: Option<V>,
        memory_type: Option<V>,
        content: Option<V>,
        source_session_id: Option<V>,
        source_turn_start: u64,
        source_turn_end: u64,
        source_group_id: Option<V>,
    },
}

/// The turn number of a turn, cut to 32 bits; 0 where it has none.
pub open spec fn turn_number(t: AnchorTurn) -> u32 {
    match t.turn_id {
        Some(n) => n as u32,
        None => 0,
    }
}

/// The turn number of the first turn, 0 where there is none.
pub open spec fn first_turn_number(turns: Seq<AnchorTurn>) -> u32 {
    if turns.len() == 0 { 0 } else { turn_number(turns[0]) }
}

/// The turn number of the last turn, 0 where there is none.
pub open spec fn last_turn_number(turns: Seq<AnchorTurn>) -> u32 {
    if turns.len() == 0 { 0 } else { turn_number(turns.last()) }
}

/// "T<start>" for a single turn, "T<start>-T<end>" for a span.
pub open spec fn turn_range_spec(start: u32, end: u32) -> Seq<char> {
    if start == end {
        "T"@ + decimal_spec(start as nat)
    } else {
        "T"@ + decimal_spec(start as nat) + "-T"@ + decimal_spec(end as nat)
    }
}

/// What the user said in a turn, trimmed; empty where the turn has no text.
pub open spec fn user_said(t: AnchorTurn) -> Seq<char> {
    match t.user {
        Some(u) => trim_spec(u@),
        None => Seq::empty(),
    }
}

/// What the user said in the turns, in order, leaving out turns where the
/// user said nothing.
pub open spec fn user_quotes(turns: Seq<AnchorTurn>) -> Seq<Seq<char>>
    decreases turns.len(),
{
    if turns.len() == 0 {
        Seq::empty()
    } else {
        let q = user_quotes(turns.drop_last());
        if user_said(turns.last()).len() == 0 {
            q
        } else {
            q.push(user_said(turns.last()))
        }
    }
}

/// The first three of the user's words, joined with " / ".
pub open spec fn quote_spec(turns: Seq<AnchorTurn>) -> Seq<char> {
    let q = user_quotes(turns);
    join_with(q.take(if q.len() < 3 { q.len() as int } else { 3 }), " / "@)
}

/// A text field of the last turn, empty where there is none.
pub open spec fn last_text(turns: Seq<AnchorTurn>, field: spec_fn(AnchorTurn) -> Option<String>) -> Seq<char> {
    if turns.len() == 0 {
        Seq::empty()
    } else {
        match field(turns.last()) {
            Some(s) => s@,
            None => Seq::empty(),
        }
    }
}

/// The evidence entry of an existing memory.
pub open spec fn existing_entry<V>(c: ConflictCandidate<V>) -> EvidenceEntry<V> {
    EvidenceEntry::ExistingMemory {
        memory_id: c.id,
        memory_type: c.kind,
        content: c.content,
        source_session_id: c.metadata.source_session_id,
        source_turn_start: match c.metadata.source_turn_start {
            Some(n) => n,
            None => 0,
        },
        source_turn_end: match c.metadata.source_turn_end {
            Some(n) => n,
            None => 0,
        },
        source_group_id: match c.metadata.source_group_id {
            Some(g) => Some(g),
            None => c.metadata.group_id,
        },
    }
}

/// The new memory's entry has these fields, drawn from `turns`.
pub open spec fn new_entry_of<V>(e: EvidenceEntry<V>, turns: Seq<AnchorTurn>) -> bool {
    match e {
        EvidenceEntry::NewMemory { turn_range, source_session_id, source_group_id, quote } => {
            &&& turn_range@ == turn_range_spec(first_turn_number(turns), last_turn_number(turns))
            &&& source_session_id@ == last_text(turns, |t: AnchorTurn| t.session_id)
            &&& source_group_id@ == last_text(turns, |t: AnchorTurn| t.source_group_id)
            &&& quote@ == quote_spec(turns)
        },
        _ => false,
    }
}

fn turn_number_of(t: &AnchorTurn) -> (r: u32)
    ensures
        r == turn_number(*t),
{
    match t.turn_id {
        Some(n) => {
            #[verifier::truncate]
            (n as u32)
        },
        None => 0,
    }
}

fn text_or_empty(o: &Option<String>) -> (r: String)
    ensures
        r@ == (match o {
            Some(s) => s@,
            None => Seq::<char>::empty(),
        }),
{
    match o {
        Some(s) => s.clone(),
        None => String::new(),
    }
}

fn turn_range_text(start: u32, end: u32) -> (r: String)
    ensures
        r@ == turn_range_spec(start, end),
{
    let head = concat_chars(&chars_of("T"), &decimal_u64(start as u64));
    if start == end {
        string_of(&head)
    } else {
        let tail = concat_chars(&chars_of("-T"), &decimal_u64(end as u64));
        string_of(&concat_chars(&head, &tail))
    }
}

fn quote_text(turns: &[AnchorTurn]) -> (r: String)
    ensures
        r@ == quote_spec(turns@),
{
    let mut quotes: Vec<Vec<char>> = Vec::new();
    let mut i: usize = 0;
    proof {
        assert(turns@.take(0) =~= Seq::<AnchorTurn>::empty());
    }
    while i < turns.len()
        invariant
            i <= turns@.len(),
            views(quotes@) == user_quotes(turns@.take(i as int)),
        decreases turns.len() - i,
    {
        proof {
            assert(turns@.take(i + 1).drop_last() =~= turns@.take(i as int));
            assert(turns@.take(i + 1).last() == turns@[i as int]);
        }
        let said = match &turns[i].user {
            Some(u) => trim(&chars_of(u.as_str())),
            None => Vec::new(),
        };
        proof {
            assert(said@ == user_said(turns@[i as int]));
        }
        if said.len() > 0 {
            quotes.push(said);
            proof {
                assert(views(quotes@) =~= user_quotes(turns@.take(i as int)).push(said@));
            }
        }
        i = i + 1;
    }
    proof {
        assert(turns@.take(turns@.len() as int) =~= turns@);
    }
    let n = if quotes.len() < 3 {
        quotes.len()
    } else {
        3
    };
    let mut first: Vec<Vec<char>> = Vec::new();
    let mut k: usize = 0;
    while k < n
        invariant
            k <= n <= quotes@.len(),
            views(first@) == views(quotes@).take(k as int),
        decreases n - k,
    {
        let piece = concat_chars(&quotes[k], &[]);
        proof {
            assert(piece@ =~= quotes@[k as int]@);
        }
        let ghost before = first@;
        first.push(piece);
        proof {
            assert(first@ == before.push(piece));
            assert(views(first@) =~= views(before).push(piece@));
            assert(views(quotes@).take(k + 1) =~= views(quotes@).take(k as int).push(quotes@[k as int]@));
        }
        k = k + 1;
    }
    string_of(&join_chars(&first, " / "))
}

/// The evidence of a reflection: first the new memory, drawn from the turns
/// it was anchored to (their span, the session and group of the last turn,
/// and the first three things the user said there), then one entry per
/// existing memory, in order.
pub fn build_reflection_evidence<V>(
    anchor_turns: &[AnchorTurn],
    candidates: Vec<ConflictCandidate<V>>,
) -> (r: Vec<EvidenceEntry<V>>)
    ensures
        r@.len() == candidates@.len() + 1,
        new_entry_of(r@[0], anchor_turns@),
        forall|i: int| 0 <= i < candidates@.len() ==> #[trigger] r@[i + 1] == existing_entry(candidates@[i]),
{
    let n = anchor_turns.len();
    let start: u32 = if n == 0 {
        0
    } else {
        turn_number_of(&anchor_turns[0])
    };
    let end: u32 = if n == 0 {
        0
    } else {
        turn_number_of(&anchor_turns[n - 1])
    };
    let (session, group) = if n == 0 {
        (String::new(), String::new())
    } else {
        (text_or_empty(&anchor_turns[n - 1].session_id), text_or_empty(&anchor_turns[n - 1].source_group_id))
    };
    let mut evidence: Vec<EvidenceEntry<V>> = Vec::new();
    evidence.push(
        EvidenceEntry::NewMemory {
            turn_range: turn_range_text(start, end),
            source_session_id: session,
            source_group_id: group,
            quote: quote_text(anchor_turns),
        },
    );
    let ghost all = candidates@;
    let total = candidates.len();
    let mut rest = candidates;
    let mut i: usize = 0;
    while rest.len() > 0
        invariant
            i + rest@.len() == all.len(),
            all.len() == total,
            rest@ == all.skip(i as int),
            evidence@.len() == i + 1,
            new_entry_of(evidence@[0], anchor_turns@),
            forall|j: int| 0 <= j < i ==> #[trigger] evidence@[j + 1] == existing_entry(all[j]),
        decreases rest.len(),
    {
        let c = rest.remove(0);
        proof {
            assert(c == all[i as int]);
            assert(rest@ =~= all.skip(i + 1));
        }
        let ConflictCandidate { id, kind, content, metadata } = c;
        let CandidateMetadata { source_session_id, source_turn_start, source_turn_end, source_group_id, group_id } =
            metadata;
        let turn_start: u64 = match source_turn_start {
            Some(v) => v,
            None => 0,
        };
        let turn_end: u64 = match source_turn_end {
            Some(v) => v,
            None => 0,
        };
        let group_value = match source_group_id {
            Some(g) => Some(g),
            None => group_id,
        };
        evidence.push(
            EvidenceEntry::ExistingMemory {
                memory_id: id,
                memory_type: kind,
                content,
                source_session_id,
                source_turn_start: turn_start,
                source_turn_end: turn_end,
                source_group_id: group_value,
            },
        );
        i = i + 1;
    }
    evidence
}

} // verus!

verus! {

/// Words of time that make a change of stance look like an update.
pub open spec fn temporal_markers() -> Seq<Seq<char>> {
    seq!["最近"@, "现在"@, "目前"@, "今天"@, "这几天"@, "暂时"@]
}

/// One of the two texts holds a word of time.
pub open spec fn temporal_in(a: Seq<char>, b: Seq<char>) -> bool {
    exists|i: int|
        0 <= i < temporal_markers().len() && (contains_spec(a, #[trigger] temporal_markers()[i])
            || contains_spec(b, temporal_markers()[i]))
}

/// A text as conflicts are judged on it: trimmed, then lower-cased.
pub open spec fn conflict_text(s: Seq<char>) -> Seq<char> {
    lowercase_of(trim_spec(s))
}

/// How likely two memories conflict, as a fraction (numerator, denominator):
/// 0 where either is empty, both are the same, their topics overlap by less
/// than `min_num / min_den`, or both take the same stance; otherwise the
/// overlap plus one quarter, plus one tenth where a word of time occurs,
/// at most 1.
pub open spec fn conflict_score_spec(left: Seq<char>, right: Seq<char>, min_num: nat, min_den: nat) -> (nat, nat) {
    let l = conflict_text(left);
    let r = conflict_text(right);
    if l.len() == 0 || r.len() == 0 || l == r {
        (0, 1)
    } else {
        let ov = topic_overlap_spec(stance_stripped(l), stance_stripped(r));
        if ov.0 * min_den < min_num * ov.1 {
            (0, 1)
        } else if negative_stance_spec(l) == negative_stance_spec(r) {
            (0, 1)
        } else {
            let num = 20 * ov.0 + 5 * ov.1 + if temporal_in(l, r) { 2 * ov.1 } else { 0 };
            let den = 20 * ov.1;
            if num >= den {
                (1, 1)
            } else {
                (num, den)
            }
        }
    }
}

fn temporal_marker_list() -> (r: Vec<&'static str>)
    ensures
        r@.len() == temporal_markers().len(),
        forall|i: int| 0 <= i < r@.len() ==> #[trigger] r@[i]@ == temporal_markers()[i],
{
    let r = vec!["最近", "现在", "目前", "今天", "这几天", "暂时"];
    r
}

fn has_temporal_marker(a: &[char], b: &[char]) -> (r: bool)
    ensures
        r == temporal_in(a@, b@),
{
    let marks = temporal_marker_list();
    let mut k: usize = 0;
    while k < marks.len()
        invariant
            k <= marks@.len(),
            marks@.len() == temporal_markers().len(),
            forall|i: int| 0 <= i < marks@.len() ==> #[trigger] marks@[i]@ == temporal_markers()[i],
            forall|i: int|
                0 <= i < k ==> !contains_spec(a@, #[trigger] temporal_markers()[i]) && !contains_spec(
                    b@,
                    temporal_markers()[i],
                ),
        decreases marks.len() - k,
    {
        let m = chars_of(marks[k]);
        if contains(a, &m) || contains(b, &m) {
            return true;
        }
        k = k + 1;
    }
    false
}

/// How likely `left` and `right` conflict, as a fraction (numerator,
/// denominator) of at most 1 (see `conflict_score_spec`); topics must
/// overlap by at least `min_num / min_den`. A score above 0 is at least one
/// quarter; it is 0 where either text is blank, where both read the same
/// once trimmed and lower-cased, and where both take the same stance.
pub fn estimate_conflict_score(left: &str, right: &str, min_num: u64, min_den: u64) -> (r: (u64, u64))
    ensures
        r.0 as nat == conflict_score_spec(left@, right@, min_num as nat, min_den as nat).0,
        r.1 as nat == conflict_score_spec(left@, right@, min_num as nat, min_den as nat).1,
        0 < r.1 <= 20 * 0x110000,
        r.0 <= r.1,
        r.0 == 0 || 4 * r.0 >= r.1,
        trim_spec(left@).len() == 0 || trim_spec(right@).len() == 0 ==> r == (0u64, 1u64),
        conflict_text(left@) == conflict_text(right@) ==> r == (0u64, 1u64),
        negative_stance_spec(conflict_text(left@)) == negative_stance_spec(conflict_text(right@))
            ==> r == (0u64, 1u64),
{
    let l = to_lowercase(&trim(&chars_of(left)));
    let rr = to_lowercase(&trim(&chars_of(right)));
    if l.len() == 0 || rr.len() == 0 || chars_eq(&l, &rr) {
        return (0, 1);
    }
    let ls = string_of(&l);
    let rs = string_of(&rr);
    let tl = strip_stance_terms(ls.as_str());
    let tr = strip_stance_terms(rs.as_str());
    let (shared, smaller) = topic_overlap_parts(tl.as_str(), tr.as_str());
    proof {
        lemma_topic_overlap_bounds(tl@, tr@);
    }
    let s = shared as u64;
    let m = smaller as u64;
    proof {
        assert((s as u128) * (min_den as u128) <= 0x110000 * 0xFFFF_FFFF_FFFF_FFFFu128) by (nonlinear_arith)
            requires
                s <= 0x110000,
                min_den <= 0xFFFF_FFFF_FFFF_FFFFu64,
        ;
        assert((min_num as u128) * (m as u128) <= 0xFFFF_FFFF_FFFF_FFFFu128 * 0x110000) by (nonlinear_arith)
            requires
                m <= 0x110000,
                min_num <= 0xFFFF_FFFF_FFFF_FFFFu64,
        ;
    }
    let lhs = (s as u128) * (min_den as u128);
    let rhs = (min_num as u128) * (m as u128);
    if lhs < rhs {
        return (0, 1);
    }
    if has_negative_stance(ls.as_str()) == has_negative_stance(rs.as_str()) {
        return (0, 1);
    }
    let bonus: u64 = if has_temporal_marker(&l, &rr) {
        2 * m
    } else {
        0
    };
    let num = 20 * s + 5 * m + bonus;
    let den = 20 * m;
    if num >= den {
        (1, 1)
    } else {
        (num, den)
    }
}

} // verus!

verus! {

/// An existing record that may conflict with a new memory: its position
/// and its conflict score as a fraction.
#[derive(Clone, Copy)]
pub struct ScoredCandidate {
    pub index: usize,
    pub score_num: u64,
    pub score_den: u64,
}

/// The trimmed text of a record, empty where it has none.
pub open spec fn record_text(c: Option<String>) -> Seq<char> {
    match c {
        Some(s) => trim_spec(s@),
        None => Seq::empty(),
    }
}

/// The record at `i`, scored against `content`.
pub open spec fn scored_at(content: Seq<char>, records: Seq<Option<String>>, i: int, min_num: nat, min_den: nat) -> ScoredCandidate {
    let sc = conflict_score_spec(content, record_text(records[i]), min_num, min_den);
    ScoredCandidate { index: i as usize, score_num: sc.0 as u64, score_den: sc.1 as u64 }
}

/// The record at `i` has text and a conflict score above 0.
pub open spec fn is_conflict_candidate(content: Seq<char>, records: Seq<Option<String>>, i: int, min_num: nat, min_den: nat) -> bool {
    &&& 0 <= i < records.len()
    &&& record_text(records[i]).len() > 0
    &&& conflict_score_spec(content, record_text(records[i]), min_num, min_den).0 > 0
}

/// How many of the first `n` records are conflict candidates.
pub open spec fn candidate_count(content: Seq<char>, records: Seq<Option<String>>, n: nat, min_num: nat, min_den: nat) -> nat
    decreases n,
{
    if n == 0 {
        0
    } else {
        candidate_count(content, records, (n - 1) as nat, min_num, min_den) + if is_conflict_candidate(
            content,
            records,
            n - 1,
            min_num,
            min_den,
        ) {
            1nat
        } else {
            0nat
        }
    }
}

/// `a` comes before `b`: a higher score, or an equal score and an earlier
/// position.
pub open spec fn ranks_above(a: ScoredCandidate, b: ScoredCandidate) -> bool {
    ||| a.score_num * b.score_den > b.score_num * a.score_den
    ||| (a.score_num * b.score_den == b.score_num * a.score_den && a.index < b.index)
}

/// Some entry of `r` is the record at `j`.
pub open spec fn picked(r: Seq<ScoredCandidate>, j: int) -> bool {
    exists|b: int| 0 <= b < r.len() && #[trigger] r[b].index == j
}

proof fn lemma_fraction_order(n1: int, d1: int, n2: int, d2: int, n3: int, d3: int)
    requires
        d1 > 0,
        d2 > 0,
        d3 > 0,
        n1 * d2 >= n2 * d1,
        n2 * d3 >= n3 * d2,
    ensures
        n1 * d3 >= n3 * d1,
        n1 * d2 > n2 * d1 || n2 * d3 > n3 * d2 ==> n1 * d3 > n3 * d1,
{
    assert(n1 * d2 * d3 >= n2 * d1 * d3) by (nonlinear_arith)
        requires
            n1 * d2 >= n2 * d1,
            d3 > 0,
    ;
    assert(n2 * d3 * d1 >= n3 * d2 * d1) by (nonlinear_arith)
        requires
            n2 * d3 >= n3 * d2,
            d1 > 0,
    ;
    assert(n1 * d3 >= n3 * d1) by (nonlinear_arith)
        requires
            n1 * d2 * d3 >= n2 * d1 * d3,
            n2 * d3 * d1 >= n3 * d2 * d1,
            d2 > 0,
    ;
    if n1 * d2 > n2 * d1 {
        assert(n1 * d2 * d3 > n2 * d1 * d3) by (nonlinear_arith)
            requires
                n1 * d2 > n2 * d1,
                d3 > 0,
        ;
        assert(n1 * d3 > n3 * d1) by (nonlinear_arith)
            requires
                n1 * d2 * d3 > n2 * d1 * d3,
                n2 * d3 * d1 >= n3 * d2 * d1,
                d2 > 0,
        ;
    }
    if n2 * d3 > n3 * d2 {
        assert(n2 * d3 * d1 > n3 * d2 * d1) by (nonlinear_arith)
            requires
                n2 * d3 > n3 * d2,
                d1 > 0,
        ;
        assert(n1 * d3 > n3 * d1) by (nonlinear_arith)
            requires
                n1 * d2 * d3 >= n2 * d1 * d3,
                n2 * d3 * d1 > n3 * d2 * d1,
                d2 > 0,
        ;
    }
}

proof fn lemma_ranks_above_trans(a: ScoredCandidate, b: ScoredCandidate, c: ScoredCandidate)
    requires
        a.score_den > 0,
        b.score_den > 0,
        c.score_den > 0,
        ranks_above(a, b),
        ranks_above(b, c),
    ensures
        ranks_above(a, c),
{
    lemma_fraction_order(
        a.score_num as int,
        a.score_den as int,
        b.score_num as int,
        b.score_den as int,
        c.score_num as int,
        c.score_den as int,
    );
}

/// Score bounds every entry keeps.
pub open spec fn score_bounded(x: ScoredCandidate) -> bool {
    0 < x.score_den <= 20 * 0x110000 && x.score_num <= x.score_den
}

fn ranks_above_exec(a: &ScoredCandidate, b: &ScoredCandidate) -> (r: bool)
    requires
        score_bounded(*a),
        score_bounded(*b),
    ensures
        r == ranks_above(*a, *b),
{
    proof {
        assert(a.score_num * b.score_den <= 20 * 0x110000 * (20 * 0x110000)) by (nonlinear_arith)
            requires
                a.score_num <= 20 * 0x110000,
                b.score_den <= 20 * 0x110000,
        ;
        assert(b.score_num * a.score_den <= 20 * 0x110000 * (20 * 0x110000)) by (nonlinear_arith)
            requires
                b.score_num <= 20 * 0x110000,
                a.score_den <= 20 * 0x110000,
        ;
    }
    let x = a.score_num * b.score_den;
    let y = b.score_num * a.score_den;
    x > y || (x == y && a.index < b.index)
}

/// The existing records that may conflict with `content`, best first: those
/// with text (trimmed) and a conflict score above 0 (see
/// `estimate_conflict_score`), by falling score, records of equal score in
/// their order, at most `candidate_limit` of them (at least one).
pub fn find_conflict_candidates(
    content: &str,
    existing_records: &[Option<String>],
    min_num: u64,
    min_den: u64,
    candidate_limit: usize,
) -> (r: Vec<ScoredCandidate>)
    ensures
        r@.len() == (if candidate_limit == 0 { 1 } else { candidate_limit as int }) || r@.len()
            == candidate_count(content@, existing_records@, existing_records@.len(), min_num as nat, min_den as nat),
        r@.len() <= (if candidate_limit == 0 { 1 } else { candidate_limit as int }),
        r@.len() <= candidate_count(content@, existing_records@, existing_records@.len(), min_num as nat, min_den as nat),
        forall|a: int|
            0 <= a < r@.len() ==> is_conflict_candidate(content@, existing_records@, #[trigger] r@[a].index as int, min_num as nat, min_den as nat)
                && r@[a] == scored_at(content@, existing_records@, r@[a].index as int, min_num as nat, min_den as nat),
        forall|a: int, b: int| 0 <= a < b < r@.len() ==> ranks_above(#[trigger] r@[a], #[trigger] r@[b]),
        forall|j: int, a: int|
            is_conflict_candidate(content@, existing_records@, j, min_num as nat, min_den as nat) && !picked(r@, j)
                && 0 <= a < r@.len() ==> ranks_above(#[trigger] r@[a], #[trigger] scored_at(content@, existing_records@, j, min_num as nat, min_den as nat)),
{
    let ghost mn = min_num as nat;
    let ghost md = min_den as nat;
    let ghost recs = existing_records@;
    let mut all: Vec<ScoredCandidate> = Vec::new();
    let mut i: usize = 0;
    while i < existing_records.len()
        invariant
            i <= recs.len(),
            recs == existing_records@,
            mn == min_num as nat,
            md == min_den as nat,
            all@.len() == candidate_count(content@, recs, i as nat, mn, md),
            forall|a: int|
                0 <= a < all@.len() ==> (#[trigger] all@[a]).index < i && is_conflict_candidate(content@, recs, all@[a].index as int, mn, md)
                    && all@[a] == scored_at(content@, recs, all@[a].index as int, mn, md) && score_bounded(all@[a]),
            forall|a: int, b: int| 0 <= a < b < all@.len() ==> ranks_above(#[trigger] all@[a], #[trigger] all@[b]),
            forall|j: int| 0 <= j < i && is_conflict_candidate(content@, recs, j, mn, md) ==> picked(all@, j),
        decreases existing_records.len() - i,
    {
        let text = match &existing_records[i] {
            Some(t) => trim(&chars_of(t.as_str())),
            None => Vec::new(),
        };
        proof {
            assert(text@ == record_text(recs[i as int]));
        }
        if text.len() > 0 {
            let text_s = string_of(&text);
            let (num, den) = estimate_conflict_score(content, text_s.as_str(), min_num, min_den);
            if num > 0 {
                let x = ScoredCandidate { index: i, score_num: num, score_den: den };
                proof {
                    assert(text_s@ == record_text(recs[i as int]));
                    let sc = conflict_score_spec(content@, record_text(recs[i as int]), mn, md);
                    assert(num as nat == sc.0);
                    assert(den as nat == sc.1);
                    assert(x.index == (i as int) as usize);
                    assert(x == scored_at(content@, recs, i as int, mn, md));
                }
                let mut p: usize = 0;
                while p < all.len() && ranks_above_exec(&all[p], &x)
                    invariant
                        p <= all@.len(),
                        score_bounded(x),
                        forall|a: int| 0 <= a < all@.len() ==> score_bounded(#[trigger] all@[a]),
                        forall|t: int| 0 <= t < p ==> ranks_above(#[trigger] all@[t], x),
                    decreases all.len() - p,
                {
                    p = p + 1;
                }
                let ghost before = all@;
                proof {
                    if p < before.len() {
                        assert(!ranks_above(before[p as int], x));
                        assert(before[p as int].index < i);
                        assert(ranks_above(x, before[p as int]));
                        assert forall|t: int| p <= t < before.len() implies ranks_above(x, #[trigger] before[t]) by {
                            if t > p {
                                assert(ranks_above(before[p as int], before[t]));
                                lemma_ranks_above_trans(x, before[p as int], before[t]);
                            }
                        }
                    }
                }
                all.insert(p, x);
                proof {
                    assert(all@ == before.insert(p as int, x));
                    assert forall|a: int, b: int| 0 <= a < b < all@.len() implies ranks_above(#[trigger] all@[a], #[trigger] all@[b]) by {
                        if a < p && b < p {
                            assert(all@[a] == before[a] && all@[b] == before[b]);
                        } else if a < p && b == p {
                        } else if a < p && b > p {
                            assert(all@[a] == before[a] && all@[b] == before[b - 1]);
                        } else if a == p {
                            assert(all@[b] == before[b - 1]);
                        } else {
                            assert(all@[a] == before[a - 1] && all@[b] == before[b - 1]);
                        }
                    }
                    assert forall|j: int| 0 <= j < i + 1 && is_conflict_candidate(content@, recs, j, mn, md) implies picked(all@, j) by {
                        if j == i {
                            assert(all@[p as int].index == j);
                        } else {
                            assert(picked(before, j));
                            let b = choose|b: int| 0 <= b < before.len() && #[trigger] before[b].index == j;
                            if b < p {
                                assert(all@[b].index == j);
                            } else {
                                assert(all@[b + 1].index == j);
                            }
                        }
                    }
                }
            } else {
                proof {
                    assert(text_s@ == record_text(recs[i as int]));
                    assert(!is_conflict_candidate(content@, recs, i as int, mn, md));
                }
            }
        } else {
            proof {
                assert(!is_conflict_candidate(content@, recs, i as int, mn, md));
            }
        }
        proof {
            assert(forall|j: int| 0 <= j < i + 1 && is_conflict_candidate(content@, recs, j, mn, md) ==> picked(all@, j));
        }
        i = i + 1;
    }
    let limit = if candidate_limit == 0 {
        1
    } else {
        candidate_limit
    };
    let ghost full = all@;
    all.truncate(limit);
    proof {
        assert forall|j: int, a: int|
            is_conflict_candidate(content@, recs, j, mn, md) && !picked(all@, j) && 0 <= a < all@.len() implies ranks_above(
            #[trigger] all@[a],
            #[trigger] scored_at(content@, recs, j, mn, md),
        ) by {
            assert(picked(full, j));
            let b = choose|b: int| 0 <= b < full.len() && #[trigger] full[b].index == j;
            if b < all@.len() {
                assert(all@[b].index == j);
            }
            assert(full[b] == scored_at(content@, recs, j, mn, md));
            assert(all@[a] == full[a]);
        }
    }
    all
}

} // verus!

verus! {

/// The conflict score of two memories does not depend on which of them is
/// the new one.
pub proof fn law_conflict_score_symmetric(left: Seq<char>, right: Seq<char>, min_num: nat, min_den: nat)
    ensures
        conflict_score_spec(left, right, min_num, min_den) == conflict_score_spec(right, left, min_num, min_den),
{
    let l = stance_stripped(conflict_text(left));
    let r = stance_stripped(conflict_text(right));
    assert(l.to_set().intersect(r.to_set()) =~= r.to_set().intersect(l.to_set()));
    assert(topic_overlap_spec(l, r) == topic_overlap_spec(r, l));
}

} // verus!

verus! {

/// The payload of a reflection reply: in the trimmed reply, from the first
/// `{` to the last `}` (to the end where there is none); nothing where the
/// reply has no `{`.
pub open spec fn reflection_payload_spec(content: Seq<char>) -> Option<Seq<char>> {
    let t = trim_spec(content);
    match first_index_of(t, '{') {
        None => None,
        Some(a) => match last_index_of(t, '}') {
            Some(b) => Some(t.subrange(a, b + 1)),
            None => Some(t.subrange(a, t.len() as int)),
        },
    }
}

/// The last `}` of the trimmed reply comes before its first `{`, with text
/// between them: the payload slice would run backwards.
pub open spec fn reflection_slice_backwards(content: Seq<char>) -> bool {
    let t = trim_spec(content);
    match first_index_of(t, '{') {
        None => false,
        Some(a) => match last_index_of(t, '}') {
            Some(b) => b + 1 < a,
            None => false,
        },
    }
}

/// Whether the payload slice of a reflection reply would run backwards.
pub fn reflection_slice_runs_backwards(content: &str) -> (r: bool)
    ensures
        r == reflection_slice_backwards(content@),
{
    let t = trim(&chars_of(content));
    proof {
        lemma_first_index_bounds(t@, '{');
        lemma_last_index_bounds(t@, '}');
    }
    match first_index(&t, '{') {
        None => false,
        Some(a) => match last_index(&t, '}') {
            Some(b) => b < a && a - b > 1,
            None => false,
        },
    }
}

/// The payload of a reflection reply (see `reflection_payload_spec`).
pub fn reflection_payload(content: &str) -> (r: Option<String>)
    requires
        !reflection_slice_backwards(content@),
    ensures
        match r {
            Some(s) => reflection_payload_spec(content@) == Some(s@),
            None => reflection_payload_spec(content@) is None,
        },
{
    let t = trim(&chars_of(content));
    let n = t.len();
    let ghost tv = t@;
    proof {
        lemma_first_index_bounds(tv, '{');
        lemma_last_index_bounds(tv, '}');
    }
    match first_index(&t, '{') {
        None => None,
        Some(a) => {
            let end = match last_index(&t, '}') {
                Some(b) => b + 1,
                None => n,
            };
            Some(string_of(&sub_chars(&t, a, end)))
        },
    }
}

/// One conflict in a reflection reply, as read: each field holds the text
/// under its key (`type`, `resolution`, `reason`) where that value is text.
pub struct ReportedConflict {
    pub conflict_type: Option<String>,
    pub resolution: Option<String>,
    pub reason: Option<String>,
}

/// A reflection reply, as read: its conflicts where `conflicts` is a list,
/// and its summary where that is text.
pub struct ReflectionReply {
    pub conflicts: Option<Vec<ReportedConflict>>,
    pub summary: Option<String>,
}

/// What a reflection found, its confidence aside.
pub struct ReflectionVerdict {
    pub conflicts: Vec<String>,
    pub resolutions: Vec<String>,
    pub has_conflict: bool,
    pub conflict_type: String,
    pub action: String,
    pub summary: String,
    pub reason: String,
}

/// The text held, or `default`.
pub open spec fn text_or(o: Option<String>, default: Seq<char>) -> Seq<char> {
    match o {
        Some(s) => s@,
        None => default,
    }
}

/// A conflict as listed: "[<resolution>] <reason>", the resolution
/// "keep_both" where none is given.
pub open spec fn conflict_line(c: ReportedConflict) -> Seq<char> {
    "["@ + text_or(c.resolution, "keep_both"@) + "] "@ + text_or(c.reason, Seq::empty())
}

/// The conflicts a reply reports, none where it has no list.
pub open spec fn reported(reply: ReflectionReply) -> Seq<ReportedConflict> {
    match reply.conflicts {
        Some(v) => v@,
        None => Seq::empty(),
    }
}

fn text_or_exec(o: &Option<String>, default: &str) -> (r: String)
    ensures
        r@ == text_or(*o, default@),
{
    match o {
        Some(s) => s.clone(),
        None => default.to_string(),
    }
}

/// What the reflection reply says: each conflict listed (also as its
/// resolution), whether there is any; and from the first conflict its
/// type, its resolution as the action ("keep_both" by default) and its
/// reason, with the reply's summary; all empty without conflicts.
pub fn reflection_verdict(reply: &ReflectionReply) -> (r: ReflectionVerdict)
    ensures
        ({
            let cs = reported(*reply);
            &&& r.conflicts@.len() == cs.len()
            &&& forall|i: int| 0 <= i < cs.len() ==> (#[trigger] r.conflicts@[i])@ == conflict_line(cs[i])
            &&& r.resolutions@.len() == cs.len()
            &&& forall|i: int| 0 <= i < cs.len() ==> (#[trigger] r.resolutions@[i])@ == conflict_line(cs[i])
            &&& r.has_conflict == (cs.len() > 0)
            &&& if cs.len() > 0 {
                &&& r.conflict_type@ == text_or(cs[0].conflict_type, Seq::empty())
                &&& r.action@ == text_or(cs[0].resolution, "keep_both"@)
                &&& r.summary@ == text_or(reply.summary, Seq::empty())
                &&& r.reason@ == text_or(cs[0].reason, Seq::empty())
            } else {
                &&& r.conflict_type@ == Seq::<char>::empty()
                &&& r.action@ == Seq::<char>::empty()
                &&& r.summary@ == Seq::<char>::empty()
                &&& r.reason@ == Seq::<char>::empty()
            }
        }),
{
    proof {
        reveal_strlit("");
    }
    let empty: Vec<ReportedConflict> = Vec::new();
    let cs: &Vec<ReportedConflict> = match &reply.conflicts {
        Some(v) => v,
        None => &empty,
    };
    proof {
        assert(cs@ == reported(*reply));
    }
    let mut lines: Vec<String> = Vec::new();
    let mut copies: Vec<String> = Vec::new();
    let mut i: usize = 0;
    while i < cs.len()
        invariant
            i <= cs@.len(),
            lines@.len() == i,
            copies@.len() == i,
            forall|k: int| 0 <= k < i ==> (#[trigger] lines@[k])@ == conflict_line(cs@[k]),
            forall|k: int| 0 <= k < i ==> (#[trigger] copies@[k])@ == conflict_line(cs@[k]),
        decreases cs.len() - i,
    {
        let c = &cs[i];
        let resolution = text_or_exec(&c.resolution, "keep_both");
        let reason = text_or_exec(&c.reason, "");
        let line = concat_chars(
            &concat_chars(&concat_chars(&chars_of("["), &chars_of(resolution.as_str())), &chars_of("] ")),
            &chars_of(reason.as_str()),
        );
        let ghost before_lines = lines@;
        let ghost before_copies = copies@;
        proof {
            reveal_strlit("");
            assert(line@ =~= conflict_line(cs@[i as int]));
        }
        lines.push(string_of(&line));
        copies.push(string_of(&line));
        proof {
            assert(lines@ == before_lines.push(lines@[i as int]));
            assert forall|k: int| 0 <= k < i + 1 implies (#[trigger] lines@[k])@ == conflict_line(cs@[k]) by {
                if k < i {
                    assert(lines@[k] == before_lines[k]);
                }
            }
            assert forall|k: int| 0 <= k < i + 1 implies (#[trigger] copies@[k])@ == conflict_line(cs@[k]) by {
                if k < i {
                    assert(copies@[k] == before_copies[k]);
                }
            }
        }
        i = i + 1;
    }
    if cs.len() == 0 {
        return ReflectionVerdict {
            conflicts: lines,
            resolutions: copies,
            has_conflict: false,
            conflict_type: String::new(),
            action: String::new(),
            summary: String::new(),
            reason: String::new(),
        };
    }
    let first = &cs[0];
    ReflectionVerdict {
        conflicts: lines,
        resolutions: copies,
        has_conflict: true,
        conflict_type: text_or_exec(&first.conflict_type, ""),
        action: text_or_exec(&first.resolution, "keep_both"),
        summary: text_or_exec(&reply.summary, ""),
        reason: text_or_exec(&first.reason, ""),
    }
}

} // verus!

verus! {

/// A memory as listed for the reflection model: "- [<id>] <content>".
pub open spec fn reflection_line(m: MemoryItem) -> Seq<char> {
    "- ["@ + m.id@ + "] "@ + m.content@
}

/// The memories listed for the reflection model, one per line.
pub open spec fn reflection_list(ms: Seq<MemoryItem>) -> Seq<char> {
    join_with(ms.map_values(|m: MemoryItem| reflection_line(m)), "\n"@)
}

fn reflection_list_exec(ms: &[MemoryItem]) -> (r: String)
    ensures
        r@ == reflection_list(ms@),
{
    let mut lines: Vec<Vec<char>> = Vec::new();
    let mut i: usize = 0;
    while i < ms.len()
        invariant
            i <= ms@.len(),
            views(lines@) == ms@.take(i as int).map_values(|m: MemoryItem| reflection_line(m)),
        decreases ms.len() - i,
    {
        let m = &ms[i];
        let line = concat_chars(
            &concat_chars(&concat_chars(&chars_of("- ["), &chars_of(m.id.as_str())), &chars_of("] ")),
            &chars_of(m.content.as_str()),
        );
        let ghost before = views(lines@);
        lines.push(line);
        proof {
            assert(views(lines@) =~= before.push(line@));
            assert(ms@.take(i + 1).map_values(|m: MemoryItem| reflection_line(m)) =~= ms@.take(i as int).map_values(
                |m: MemoryItem| reflection_line(m),
            ).push(reflection_line(ms@[i as int])));
        }
        i = i + 1;
    }
    proof {
        assert(ms@.take(ms@.len() as int) =~= ms@);
    }
    string_of(&join_chars(&lines, "\n"))
}

/// What the reflection model is shown: the existing memories and the new
/// ones, each listed one per line; nothing when either is empty (there is
/// nothing to reflect on).
pub fn reflection_lists(existing: &[MemoryItem], new_items: &[MemoryItem]) -> (r: Option<(String, String)>)
    ensures
        match r {
            None => existing@.len() == 0 || new_items@.len() == 0,
            Some((old_list, new_list)) => {
                &&& existing@.len() > 0 && new_items@.len() > 0
                &&& old_list@ == reflection_list(existing@)
                &&& new_list@ == reflection_list(new_items@)
            },
        },
{
    if existing.len() == 0 || new_items.len() == 0 {
        return None;
    }
    Some((reflection_list_exec(existing), reflection_list_exec(new_items)))
}

} // verus!

verus! {

/// A text takes a negative stance exactly when it contains one of the cues
/// 不喜欢, 讨厌, 不想, 不要, 不喝, 不吃, 不再, 不愿意, 拒绝, 别再, 不能接受 or 没兴趣.
pub proof fn law_negative_stance_is_a_listed_cue(text: Seq<char>)
    ensures
        negative_stance_spec(text) <==> (contains_spec(text, "不喜欢"@) || contains_spec(text, "讨厌"@)
            || contains_spec(text, "不想"@) || contains_spec(text, "不要"@) || contains_spec(text, "不喝"@)
            || contains_spec(text, "不吃"@) || contains_spec(text, "不再"@) || contains_spec(
            text,
            "不愿意"@,
        ) || contains_spec(text, "拒绝"@) || contains_spec(text, "别再"@) || contains_spec(
            text,
            "不能接受"@,
        ) || contains_spec(text, "没兴趣"@)),
{
    let c = negative_cues();
    assert(c.len() == 12);
    assert(c[0] == "不喜欢"@ && c[1] == "讨厌"@ && c[2] == "不想"@ && c[3] == "不要"@);
    assert(c[4] == "不喝"@ && c[5] == "不吃"@ && c[6] == "不再"@ && c[7] == "不愿意"@);
    assert(c[8] == "拒绝"@ && c[9] == "别再"@ && c[10] == "不能接受"@ && c[11] == "没兴趣"@);
    if negative_stance_spec(text) {
        let i = choose|i: int| 0 <= i < c.len() && contains_spec(text, #[trigger] c[i]);
        assert(0 <= i < 12);
    }
}

/// A non-empty sequence has a non-empty set of members.
proof fn lemma_nonempty_set(s: Seq<char>)
    requires
        s.len() > 0,
    ensures
        s.to_set().len() > 0,
{
    vstd::seq_lib::seq_to_set_is_finite(s);
    assert(s.to_set().contains(s[0]));
    if s.to_set().len() == 0 {
        s.to_set().lemma_len0_is_empty();
    }
}

/// Two memories that differ, overlap enough in topic and of which one holds
/// a negative cue and the other none get a conflict score of at least one
/// quarter: opposite stances on one topic are a conflict.
pub proof fn law_opposite_stances_conflict(left: Seq<char>, right: Seq<char>, min_num: nat, min_den: nat)
    requires
        conflict_text(left).len() > 0,
        conflict_text(right).len() > 0,
        conflict_text(left) != conflict_text(right),
        ({
            let ov = topic_overlap_spec(
                stance_stripped(conflict_text(left)),
                stance_stripped(conflict_text(right)),
            );
            ov.0 * min_den >= min_num * ov.1
        }),
        negative_stance_spec(conflict_text(left)) != negative_stance_spec(conflict_text(right)),
    ensures
        conflict_score_spec(left, right, min_num, min_den).0 > 0,
        4 * conflict_score_spec(left, right, min_num, min_den).0 >= conflict_score_spec(
            left,
            right,
            min_num,
            min_den,
        ).1,
{
    let a = stance_stripped(conflict_text(left));
    let b = stance_stripped(conflict_text(right));
    if a.len() > 0 && b.len() > 0 {
        lemma_nonempty_set(a);
        lemma_nonempty_set(b);
    }
}

} // verus!
