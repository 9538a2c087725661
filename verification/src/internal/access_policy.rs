//! Which memories are visible in which conversation, and how memory
//! records are classified for that purpose.
use vstd::prelude::*;
use crate::core_types::{ChatScope, MemoryItem, MemoryType};
use crate::ordering::{
    lemma_count_two, lemma_filter_insert, lemma_filter_push, lemma_multiset_insert,
};
use crate::retrieval::coordinator::PromptEntry;
use crate::str_map::StrMap;
use crate::text::{
    chars_eq, chars_of, contains, contains_piece, contains_spec, eq_str, lowercase_of, to_lowercase,
    trim, trim_spec, views,
};

verus! {

/// Who may see a memory.
#[derive(Clone, Copy, Debug, PartialEq, Eq, Structural)]
pub enum MemoryVisibility {
    Private,
    Shared,
}

/// What a memory is about.
#[derive(Clone, Copy, Debug, PartialEq, Eq, Structural)]
pub enum MemoryContentCategory {
    PersonalInfo,
    Preference,
    Relationship,
    Event,
    Opinion,
    Skill,
    Health,
    Finance,
    DailyChat,
    Generic,
}

/// To whom a memory applies.
#[derive(Clone, Copy, Debug, PartialEq, Eq, Structural)]
pub enum MemoryApplicabilityScope {
    SelfOnly,
    DirectUsers,
    GroupMembers,
    Public,
    Unknown,
}

/// The request a memory lookup serves.
pub struct MemoryAccessContext {
    pub requester_user_id: String,
    pub message_type: String,
    pub group_id: String,
    pub read_scope: String,
    pub platform: String,
    pub hour_of_day: i32,
}

impl Default for MemoryAccessContext {
    /// A private request of nobody in particular, reading the user's own memories.
    fn default() -> (r: Self)
        ensures
            r.requester_user_id@ == Seq::<char>::empty(),
            r.message_type@ == "private"@,
            r.group_id@ == Seq::<char>::empty(),
            r.read_scope@ == "user"@,
            r.platform@ == Seq::<char>::empty(),
            r.hour_of_day == -1,
    {
        MemoryAccessContext {
            requester_user_id: String::new(),
            message_type: "private".to_string(),
            group_id: String::new(),
            read_scope: "user".to_string(),
            platform: String::new(),
            hour_of_day: -1,
        }
    }
}

impl MemoryAccessContext {
    /// The context of a request by `user_id` in `scope`: a private or a group
    /// message (with the group's id); the other fields as in `default`.
    pub fn new(user_id: &str, scope: &ChatScope) -> (r: Self)
        ensures
            r.requester_user_id@ == user_id@,
            r.message_type@ == (match scope {
                ChatScope::Private => "private"@,
                ChatScope::Group(_) => "group"@,
            }),
            r.group_id@ == (match scope {
                ChatScope::Private => Seq::<char>::empty(),
                ChatScope::Group(g) => g@,
            }),
            r.read_scope@ == "user"@,
            r.platform@ == Seq::<char>::empty(),
            r.hour_of_day == -1,
    {
        let (message_type, group_id) = match scope {
            ChatScope::Private => ("private".to_string(), String::new()),
            ChatScope::Group(g) => ("group".to_string(), g.clone()),
        };
        MemoryAccessContext {
            requester_user_id: user_id.to_string(),
            message_type,
            group_id,
            read_scope: "user".to_string(),
            platform: String::new(),
            hour_of_day: -1,
        }
    }
}

/// The parts of a memory record's metadata that classification reads: its
/// `content_category` and `visibility` where they are strings, and its
/// string tags in order.
pub struct RecordMetadata {
    pub content_category: Option<String>,
    pub visibility: Option<String>,
    pub tags: Vec<String>,
}

/// The parts of a memory record that classification reads: its content
/// (empty where missing), owner and group ids, and metadata.
pub struct MemoryRecord {
    pub content: String,
    pub user_id: Option<String>,
    pub group_id: Option<String>,
    pub metadata: Option<RecordMetadata>,
}

/// What classification adds to a memory record.
pub struct NormalizedRecord {
    pub content_category: String,
    pub visibility: MemoryVisibility,
    pub applicability_scope: StrMap<String>,
}

/// Phrases with which a user asks to be called something.
pub open spec fn addressing_patterns() -> Seq<Seq<char>> {
    seq!["叫我"@, "称呼我"@, "喊我"@]
}

/// `content` holds one of the addressing phrases.
pub open spec fn mentions_addressing(content: Seq<char>) -> bool {
    exists|i: int| 0 <= i < 3 && contains_spec(content, #[trigger] addressing_patterns()[i])
}

/// Tag names that mark a rule.
pub open spec fn rule_name(t: Seq<char>) -> bool {
    t == "group_rule"@ || t == "bot_rule"@ || t == "public_rule"@
}

/// The first tag from index `i` on that names a rule, lower-cased.
pub open spec fn rule_tag_from(tags: Seq<String>, i: int) -> Option<Seq<char>>
    decreases tags.len() - i,
{
    if i < 0 || i >= tags.len() {
        None
    } else if rule_name(lowercase_of(tags[i]@)) {
        Some(lowercase_of(tags[i]@))
    } else {
        rule_tag_from(tags, i + 1)
    }
}

/// The category of a record with `content` and `metadata`: an addressing
/// preference when the content asks to be called something; else the
/// metadata's own category; else the first rule tag; else `generic`.
pub open spec fn category_spec(content: Seq<char>, metadata: Option<RecordMetadata>) -> Seq<char> {
    if mentions_addressing(content) {
        "addressing_preference"@
    } else {
        match metadata {
            Some(m) => match m.content_category {
                Some(c) => c@,
                None => match rule_tag_from(m.tags@, 0) {
                    Some(t) => t,
                    None => "generic"@,
                },
            },
            None => "generic"@,
        }
    }
}

/// The applicability kind of a category.
pub open spec fn scope_kind_spec(category: Seq<char>) -> Seq<char> {
    if category == "addressing_preference"@ {
        "self_only"@
    } else if category == "group_rule"@ {
        "group_members"@
    } else if category == "bot_rule"@ || category == "public_rule"@ {
        "public"@
    } else if category == "personal_info"@ || category == "preference"@ {
        "self_only"@
    } else if category == "event"@ || category == "opinion"@ {
        "direct_users"@
    } else {
        "public"@
    }
}

/// The view of an optional string.
pub open spec fn opt_view(o: Option<String>) -> Option<Seq<char>> {
    match o {
        Some(s) => Some(s@),
        None => None,
    }
}

/// `scope` is the applicability of `category` for a record owned by
/// `user_id` in `group_id`: its kind, the owner for an addressing
/// preference, the group for a group rule, and nothing else.
pub open spec fn applicability_spec(
    scope: Map<Seq<char>, String>,
    category: Seq<char>,
    user_id: Option<String>,
    group_id: Option<String>,
) -> bool {
    &&& lookup(scope, "kind"@) == Some(scope_kind_spec(category))
    &&& lookup(scope, "user_id"@) == (if category == "addressing_preference"@ {
        opt_view(user_id)
    } else {
        None
    })
    &&& lookup(scope, "group_id"@) == (if category == "group_rule"@ {
        opt_view(group_id)
    } else {
        None
    })
    &&& forall|k: Seq<char>|
        #[trigger] scope.dom().contains(k) ==> k == "kind"@ || k == "user_id"@ || k == "group_id"@
}

/// The metadata marks the memory as shared.
pub open spec fn shared_spec(metadata: Option<RecordMetadata>) -> bool {
    match metadata {
        Some(m) => opt_view(m.visibility) == Some("shared"@),
        None => false,
    }
}

/// The metadata marks the memory as an addressing preference.
pub open spec fn addressing_spec(metadata: Option<RecordMetadata>) -> bool {
    match metadata {
        Some(m) => opt_view(m.content_category) == Some("addressing_preference"@),
        None => false,
    }
}

fn addressing_pattern_list() -> (r: Vec<&'static str>)
    ensures
        r@.len() == 3,
        forall|i: int| 0 <= i < 3 ==> #[trigger] r@[i]@ == addressing_patterns()[i],
{
    vec!["叫我", "称呼我", "喊我"]
}

fn opt_eq(o: &Option<String>, s: &str) -> (r: bool)
    ensures
        r == (opt_view(*o) == Some(s@)),
{
    match o {
        Some(v) => eq_str(&chars_of(v.as_str()), s),
        None => false,
    }
}

/// Which memory types each kind of conversation may see.
pub struct MemoryAccessPolicy {
    pub private_allowed_types: Vec<MemoryType>,
    pub group_allowed_types: Vec<MemoryType>,
}

/// The types visible in `scope` under `policy`.
pub open spec fn allowed_types(policy: &MemoryAccessPolicy, scope: &ChatScope) -> Seq<MemoryType> {
    match scope {
        ChatScope::Private => policy.private_allowed_types@,
        ChatScope::Group(_) => policy.group_allowed_types@,
    }
}

/// `memory` may be shown in `scope` under `policy`.
pub open spec fn accessible(policy: &MemoryAccessPolicy, memory: MemoryItem, scope: &ChatScope) -> bool {
    allowed_types(policy, scope).contains(memory.memory_type)
}

/// Category names whose memories are shared with everyone they apply to.
pub open spec fn shared_category(category: Seq<char>) -> bool {
    category == "group_rule"@ || category == "bot_rule"@ || category == "public_rule"@
}

/// Value at `key` in `m`, if there is one.
pub open spec fn lookup(m: Map<Seq<char>, String>, key: Seq<char>) -> Option<Seq<char>> {
    if m.dom().contains(key) {
        Some(m[key]@)
    } else {
        None
    }
}

/// Whether a memory with applicability `scope` (keys `kind`, `user_id`,
/// `group_id`) applies to the request `context`; a missing kind reads as
/// `self_only`.
pub open spec fn scope_matches_spec(scope: Map<Seq<char>, String>, context: &MemoryAccessContext) -> bool {
    let kind = match lookup(scope, "kind"@) {
        Some(k) => k,
        None => "self_only"@,
    };
    if kind == "self_only"@ || kind == "direct_users"@ {
        lookup(scope, "user_id"@) == Some(context.requester_user_id@)
    } else if kind == "group_members"@ {
        lookup(scope, "group_id"@) == Some(context.group_id@) || context.read_scope@ == "group"@
    } else {
        kind == "public"@
    }
}

fn lookup_chars(m: &StrMap<String>, key: &str) -> (r: Option<Vec<char>>)
    requires
        m.wf(),
    ensures
        match r {
            Some(v) => lookup(m@, key@) == Some(v@),
            None => lookup(m@, key@) is None,
        },
{
    match m.get(&chars_of(key)) {
        Some(v) => Some(chars_of(v.as_str())),
        None => None,
    }
}


// ---------------------------------------------------------------------------
// Ordering and de-duplication by importance.

/// Items of `s` appear in order of non-increasing importance.
pub open spec fn importance_desc(s: Seq<MemoryItem>) -> bool {
    forall|i: int, j: int| 0 <= i < j < s.len() ==> #[trigger] s[i].importance >= #[trigger] s[j].importance
}

/// The predicate "has importance `v`".
pub open spec fn importance_is(v: u64) -> spec_fn(MemoryItem) -> bool {
    |m: MemoryItem| m.importance == v
}

/// The key under which memories count as the same: the trimmed,
/// lower-cased content.
pub open spec fn content_key(m: MemoryItem) -> Seq<char> {
    lowercase_of(trim_spec(m.content@))
}

/// Among the first `n` items of `s`, the one at `w` is the first of the
/// highest importance among those with its key.
pub open spec fn best_upto(s: Seq<MemoryItem>, n: int, w: int) -> bool {
    &&& 0 <= w < n <= s.len()
    &&& forall|j: int|
        0 <= j < n && #[trigger] content_key(s[j]) == content_key(s[w]) ==> s[j].importance
            <= s[w].importance && (j < w ==> s[j].importance < s[w].importance)
}

/// `x` is the first item of the highest importance among the items of `s`
/// with its key.
pub open spec fn kept_from(s: Seq<MemoryItem>, x: MemoryItem) -> bool {
    exists|w: int| best_of_key(s, w) && x == s[w]
}

/// The item at `w` is the first of the highest importance among the items
/// of `s` with its key.
pub open spec fn best_of_key(s: Seq<MemoryItem>, w: int) -> bool {
    best_upto(s, s.len() as int, w)
}

/// `s` in order of non-increasing importance; items of equal importance
/// keep their relative order.
fn sorted_by_importance(s: &[MemoryItem]) -> (r: Vec<MemoryItem>)
    ensures
        r@.len() == s@.len(),
        importance_desc(r@),
        r@.to_multiset() == s@.to_multiset(),
        forall|v: u64| #[trigger] r@.filter(importance_is(v)) == s@.filter(importance_is(v)),
{
    broadcast use vstd::seq_lib::group_to_multiset_ensures;

    let mut out: Vec<MemoryItem> = Vec::new();
    let mut i: usize = 0;
    proof {
        assert(s@.take(0) =~= Seq::<MemoryItem>::empty());
        assert forall|v: u64| #[trigger] out@.filter(importance_is(v)) == s@.take(0).filter(
            importance_is(v),
        ) by {
            reveal(Seq::filter);
        }
    }
    while i < s.len()
        invariant
            i <= s@.len(),
            out@.len() == i,
            importance_desc(out@),
            out@.to_multiset() == s@.take(i as int).to_multiset(),
            forall|v: u64| #[trigger] out@.filter(importance_is(v)) == s@.take(i as int).filter(
                importance_is(v),
            ),
        decreases s.len() - i,
    {
        let x = s[i].duplicate();
        let mut p: usize = 0;
        while p < out.len() && out[p].importance >= x.importance
            invariant
                p <= out@.len(),
                forall|t: int| 0 <= t < p ==> #[trigger] out@[t].importance >= x.importance,
            decreases out.len() - p,
        {
            p = p + 1;
        }
        let ghost old_out = out@;
        proof {
            assert forall|t: int| p <= t < old_out.len() implies #[trigger] old_out[t].importance
                < x.importance by {
                assert(old_out[p as int].importance < x.importance);
                if t > p {
                    assert(old_out[p as int].importance >= old_out[t].importance);
                }
            }
            assert(s@.take(i + 1) =~= s@.take(i as int).push(s@[i as int]));
            assert forall|v: u64| #[trigger] old_out.insert(p as int, x).filter(importance_is(v))
                == s@.take(i + 1).filter(importance_is(v)) by {
                let f = importance_is(v);
                assert(f(x) ==> forall|t: int| p <= t < old_out.len() ==> !f(#[trigger] old_out[t]));
                lemma_filter_insert(old_out, p as int, x, f);
                lemma_filter_push(s@.take(i as int), x, importance_is(v));
            }
            lemma_multiset_insert(old_out, p as int, x);
            s@.take(i as int).to_multiset_ensures();
            assert(s@.take(i as int).push(x).to_multiset() =~= s@.take(i as int).to_multiset().insert(
                x,
            ));
        }
        out.insert(p, x);
        proof {
            assert forall|a: int, b: int| 0 <= a < b < out@.len() implies #[trigger] out@[a].importance
                >= #[trigger] out@[b].importance by {
                if b < p {
                    assert(out@[a] == old_out[a] && out@[b] == old_out[b]);
                } else if b == p {
                    assert(out@[a] == old_out[a]);
                } else if a < p {
                    assert(out@[a] == old_out[a] && out@[b] == old_out[b - 1]);
                } else if a == p {
                    assert(out@[b] == old_out[b - 1]);
                } else {
                    assert(out@[a] == old_out[a - 1] && out@[b] == old_out[b - 1]);
                }
            }
        }
        i = i + 1;
    }
    proof {
        assert(s@.take(s@.len() as int) =~= s@);
    }
    out
}

proof fn lemma_dedupe_result(
    s: Seq<MemoryItem>,
    b: Seq<MemoryItem>,
    idx: Seq<int>,
    slot: Seq<int>,
    r: Seq<MemoryItem>,
)
    requires
        idx.len() == b.len(),
        slot.len() == s.len(),
        forall|x: int, y: int|
            0 <= x < y < b.len() ==> content_key(#[trigger] b[x]) != content_key(#[trigger] b[y]),
        forall|a: int|
            0 <= a < b.len() ==> 0 <= #[trigger] idx[a] < s.len() && b[a] == s[idx[a]]
                && best_upto(s, s.len() as int, idx[a]),
        forall|t: int|
            0 <= t < s.len() ==> 0 <= #[trigger] slot[t] < b.len() && content_key(b[slot[t]])
                == content_key(s[t]),
        r.to_multiset() == b.to_multiset(),
    ensures
        forall|i: int, j: int|
            0 <= i < j < r.len() ==> content_key(#[trigger] r[i]) != content_key(#[trigger] r[j]),
        forall|i: int| 0 <= i < r.len() ==> kept_from(s, #[trigger] r[i]),
        forall|w: int| #[trigger] best_of_key(s, w) ==> r.contains(s[w]),
{
    r.to_multiset_ensures();
    b.to_multiset_ensures();
    assert forall|x: MemoryItem| r.contains(x) implies b.contains(x) by {
        assert(r.to_multiset().count(x) > 0);
    }
    assert forall|x: MemoryItem| b.contains(x) implies r.contains(x) by {
        assert(b.to_multiset().count(x) > 0);
    }
    assert forall|x: int, y: int| 0 <= x < y < b.len() implies b[x] != b[y] by {
        assert(content_key(b[x]) != content_key(b[y]));
    }
    assert(b.no_duplicates());
    b.lemma_multiset_has_no_duplicates();
    assert forall|i: int, j: int| 0 <= i < j < r.len() implies content_key(#[trigger] r[i])
        != content_key(#[trigger] r[j]) by {
        if content_key(r[i]) == content_key(r[j]) {
            assert(r.contains(r[i]));
            assert(r.contains(r[j]));
            let a1 = choose|a: int| 0 <= a < b.len() && b[a] == r[i];
            let a2 = choose|a: int| 0 <= a < b.len() && b[a] == r[j];
            if a1 < a2 {
                assert(content_key(b[a1]) != content_key(b[a2]));
            } else if a2 < a1 {
                assert(content_key(b[a2]) != content_key(b[a1]));
            }
            lemma_count_two(r, i, j);
            assert(b.to_multiset().contains(r[i]));
        }
    }
    assert forall|i: int| 0 <= i < r.len() implies kept_from(s, #[trigger] r[i]) by {
        assert(r.contains(r[i]));
        let a = choose|a: int| 0 <= a < b.len() && b[a] == r[i];
        let w = idx[a];
        assert(best_of_key(s, w) && r[i] == s[w]);
    }
    assert forall|w: int| #[trigger] best_of_key(s, w) implies r.contains(s[w]) by {
        let a = slot[w];
        assert(content_key(s[idx[a]]) == content_key(s[w]));
        assert(best_upto(s, s.len() as int, idx[a]));
        if idx[a] < w {
            assert(s[idx[a]].importance < s[w].importance);
        } else if w < idx[a] {
            assert(s[w].importance < s[idx[a]].importance);
        }
        assert(b[a] == s[w]);
        assert(b.contains(s[w]));
        assert(r.contains(s[w]));
    }
}

impl MemoryAccessPolicy {
    /// Private chats see every memory type; group chats see facts and events.
    pub fn new() -> (r: Self)
        ensures
            r.private_allowed_types@ == seq![
                MemoryType::Fact,
                MemoryType::Preference,
                MemoryType::Event,
                MemoryType::Opinion,
                MemoryType::Relationship,
            ],
            r.group_allowed_types@ == seq![MemoryType::Fact, MemoryType::Event],
    {
        MemoryAccessPolicy {
            private_allowed_types: vec![
                MemoryType::Fact,
                MemoryType::Preference,
                MemoryType::Event,
                MemoryType::Opinion,
                MemoryType::Relationship,
            ],
            group_allowed_types: vec![MemoryType::Fact, MemoryType::Event],
        }
    }

    /// Whether `memory`'s type is allowed in `scope`.
    pub fn is_accessible(&self, memory: &MemoryItem, scope: &ChatScope) -> (r: bool)
        ensures
            r == accessible(self, *memory, scope),
    {
        let allowed = match scope {
            ChatScope::Private => &self.private_allowed_types,
            ChatScope::Group(_) => &self.group_allowed_types,
        };
        let mut i: usize = 0;
        while i < allowed.len()
            invariant
                i <= allowed@.len(),
                allowed@ == allowed_types(self, scope),
                forall|t: int| 0 <= t < i ==> allowed@[t] != memory.memory_type,
            decreases allowed.len() - i,
        {
            if allowed[i] == memory.memory_type {
                proof {
                    assert(allowed@[i as int] == memory.memory_type);
                }
                return true;
            }
            i = i + 1;
        }
        false
    }

    /// The memories whose type is allowed in `scope`, in their order.
    pub fn filter_accessible(&self, memories: &[MemoryItem], scope: &ChatScope) -> (r: Vec<MemoryItem>)
        ensures
            r@ == memories@.filter(|m: MemoryItem| accessible(self, m, scope)),
    {
        let mut r: Vec<MemoryItem> = Vec::new();
        let mut i: usize = 0;
        proof {
            assert(memories@.take(0).filter(|m: MemoryItem| accessible(self, m, scope)) =~= Seq::<
                MemoryItem,
            >::empty());
        }
        while i < memories.len()
            invariant
                i <= memories@.len(),
                r@ == memories@.take(i as int).filter(|m: MemoryItem| accessible(self, m, scope)),
            decreases memories.len() - i,
        {
            proof {
                assert(memories@.take(i + 1).drop_last() =~= memories@.take(i as int));
                reveal_with_fuel(Seq::filter, 1);
            }
            if self.is_accessible(&memories[i], scope) {
                r.push(memories[i].duplicate());
            }
            i = i + 1;
        }
        proof {
            assert(memories@.take(memories@.len() as int) =~= memories@);
        }
        r
    }

    /// Orders `memories` by non-increasing importance; memories of equal
    /// importance keep their relative order (a stable sort).
    pub fn sort_by_importance(memories: &mut Vec<MemoryItem>)
        ensures
            final(memories)@.len() == old(memories)@.len(),
            importance_desc(final(memories)@),
            final(memories)@.to_multiset() == old(memories)@.to_multiset(),
            forall|v: u64| #[trigger] final(memories)@.filter(importance_is(v)) == old(
                memories,
            )@.filter(importance_is(v)),
    {
        let sorted = sorted_by_importance(memories.as_slice());
        *memories = sorted;
    }

    /// One memory per key (trimmed, lower-cased content): the first of the
    /// highest importance; the result runs by non-increasing importance.
    pub fn dedupe_entries(memories: &[MemoryItem]) -> (r: Vec<MemoryItem>)
        ensures
            importance_desc(r@),
            forall|i: int, j: int|
                0 <= i < j < r@.len() ==> content_key(#[trigger] r@[i]) != content_key(
                    #[trigger] r@[j],
                ),
            forall|i: int| 0 <= i < r@.len() ==> kept_from(memories@, #[trigger] r@[i]),
            forall|w: int| #[trigger] best_of_key(memories@, w) ==> r@.contains(memories@[w]),
    {
        let mut best: Vec<MemoryItem> = Vec::new();
        let mut keys: Vec<Vec<char>> = Vec::new();
        let ghost mut idx: Seq<int> = Seq::empty();
        let ghost mut slot: Seq<int> = Seq::empty();
        let mut i: usize = 0;
        while i < memories.len()
            invariant
                i <= memories@.len(),
                best@.len() == keys@.len(),
                idx.len() == best@.len(),
                slot.len() == i,
                forall|a: int| 0 <= a < keys@.len() ==> #[trigger] keys@[a]@ == content_key(best@[a]),
                forall|a: int, b: int|
                    0 <= a < b < keys@.len() ==> #[trigger] keys@[a]@ != #[trigger] keys@[b]@,
                forall|a: int|
                    0 <= a < best@.len() ==> 0 <= #[trigger] idx[a] < i && best@[a]
                        == memories@[idx[a]] && best_upto(memories@, i as int, idx[a]),
                forall|t: int|
                    0 <= t < i ==> 0 <= #[trigger] slot[t] < keys@.len() && keys@[slot[t]]@
                        == content_key(memories@[t]),
            decreases memories.len() - i,
        {
            let k = to_lowercase(&trim(&chars_of(memories[i].content.as_str())));
            let ghost s = memories@;
            let ghost n = i as int;
            let mut j: usize = 0;
            while j < keys.len() && !chars_eq(&keys[j], &k)
                invariant
                    j <= keys@.len(),
                    forall|a: int| 0 <= a < j ==> (#[trigger] keys@[a])@ != k@,
                decreases keys.len() - j,
            {
                j = j + 1;
            }
            if j < keys.len() {
                proof {
                    assert(keys@[j as int]@ == k@);
                }
                if memories[i].importance > best[j].importance {
                    let ghost w_old = idx[j as int];
                    best.set(j, memories[i].duplicate());
                    proof {
                        idx = idx.update(j as int, n);
                        assert forall|a: int| 0 <= a < best@.len() implies 0 <= #[trigger] idx[a]
                            < n + 1 && best@[a] == s[idx[a]] && best_upto(s, n + 1, idx[a]) by {
                            if a == j {
                                assert forall|t: int|
                                    0 <= t < n + 1 && #[trigger] content_key(s[t]) == content_key(
                                        s[n],
                                    ) implies s[t].importance <= s[n].importance && (t < n
                                    ==> s[t].importance < s[n].importance) by {
                                    if t < n {
                                        assert(content_key(s[t]) == content_key(s[w_old]));
                                    }
                                }
                            } else {
                                assert(keys@[a]@ != keys@[j as int]@);
                                assert forall|t: int|
                                    0 <= t < n + 1 && #[trigger] content_key(s[t]) == content_key(
                                        s[idx[a]],
                                    ) implies s[t].importance <= s[idx[a]].importance && (t
                                    < idx[a] ==> s[t].importance < s[idx[a]].importance) by {
                                    if t == n {
                                        assert(content_key(s[idx[a]]) == keys@[a]@);
                                    }
                                }
                            }
                        }
                    }
                } else {
                    proof {
                        assert forall|a: int| 0 <= a < best@.len() implies 0 <= #[trigger] idx[a]
                            < n + 1 && best@[a] == s[idx[a]] && best_upto(s, n + 1, idx[a]) by {
                            assert(best_upto(s, n, idx[a]));
                            assert forall|t: int|
                                0 <= t < n + 1 && #[trigger] content_key(s[t]) == content_key(
                                    s[idx[a]],
                                ) implies s[t].importance <= s[idx[a]].importance && (t < idx[a]
                                ==> s[t].importance < s[idx[a]].importance) by {
                                if t == n {
                                    assert(content_key(s[idx[a]]) == keys@[a]@);
                                    if a != j {
                                        assert(keys@[a]@ != keys@[j as int]@);
                                    }
                                }
                            }
                        }
                    }
                }
                proof {
                    slot = slot.push(j as int);
                }
            } else {
                let ghost old_len = keys@.len() as int;
                best.push(memories[i].duplicate());
                keys.push(k);
                proof {
                    idx = idx.push(n);
                    slot = slot.push(old_len);
                    assert forall|a: int| 0 <= a < best@.len() implies 0 <= #[trigger] idx[a]
                        < n + 1 && best@[a] == s[idx[a]] && best_upto(s, n + 1, idx[a]) by {
                        if a == old_len {
                            assert forall|t: int|
                                0 <= t < n + 1 && #[trigger] content_key(s[t]) == content_key(
                                    s[n],
                                ) implies s[t].importance <= s[n].importance && (t < n
                                ==> s[t].importance < s[n].importance) by {
                                if t < n {
                                    assert(keys@[slot[t]]@ == content_key(s[t]));
                                }
                            }
                        } else {
                            assert(best_upto(s, n, idx[a]));
                            assert forall|t: int|
                                0 <= t < n + 1 && #[trigger] content_key(s[t]) == content_key(
                                    s[idx[a]],
                                ) implies s[t].importance <= s[idx[a]].importance && (t < idx[a]
                                ==> s[t].importance < s[idx[a]].importance) by {
                                if t == n {
                                    assert(content_key(s[idx[a]]) == keys@[a]@);
                                }
                            }
                        }
                    }
                }
            }
            i = i + 1;
        }
        proof {
            assert forall|x: int, y: int| 0 <= x < y < best@.len() implies content_key(
                #[trigger] best@[x],
            ) != content_key(#[trigger] best@[y]) by {
                assert(keys@[x]@ != keys@[y]@);
            }
            assert forall|t: int| 0 <= t < memories@.len() implies 0 <= #[trigger] slot[t]
                < best@.len() && content_key(best@[slot[t]]) == content_key(memories@[t]) by {
                assert(keys@[slot[t]]@ == content_key(best@[slot[t]]));
            }
        }
        let r = sorted_by_importance(best.as_slice());
        proof {
            lemma_dedupe_result(memories@, best@, idx, slot, r@);
        }
        r
    }

    /// Whether the metadata marks the memory as shared.
    pub fn is_shared(&self, metadata: Option<&RecordMetadata>) -> (r: bool)
        ensures
            r == shared_spec(match metadata {
                Some(m) => Some(*m),
                None => None,
            }),
    {
        match metadata {
            Some(m) => opt_eq(&m.visibility, "shared"),
            None => false,
        }
    }

    /// Whether the metadata marks the memory as an addressing preference.
    pub fn is_addressing(&self, metadata: Option<&RecordMetadata>) -> (r: bool)
        ensures
            r == addressing_spec(match metadata {
                Some(m) => Some(*m),
                None => None,
            }),
    {
        match metadata {
            Some(m) => opt_eq(&m.content_category, "addressing_preference"),
            None => false,
        }
    }

    /// How a memory is shown in a prompt: as an addressing preference, as
    /// shared by another user, or as private.
    pub fn classify_for_prompt(
        &self,
        metadata: Option<&RecordMetadata>,
        owner_user_id: &str,
        requester_user_id: &str,
    ) -> (r: &'static str)
        ensures
            ({
                let m = match metadata {
                    Some(m) => Some(*m),
                    None => None,
                };
                r@ == (if addressing_spec(m) {
                    "addressing"@
                } else if shared_spec(m) && owner_user_id@ != requester_user_id@ {
                    "shared"@
                } else {
                    "private"@
                })
            }),
    {
        if self.is_addressing(metadata) {
            return "addressing";
        }
        if self.is_shared(metadata) && !eq_str(&chars_of(owner_user_id), requester_user_id) {
            return "shared";
        }
        "private"
    }

    /// The category of a record with `content` and `metadata`.
    pub fn _normalize_category(&self, content: &str, metadata: Option<&RecordMetadata>) -> (r: String)
        ensures
            r@ == category_spec(
                content@,
                match metadata {
                    Some(m) => Some(*m),
                    None => None,
                },
            ),
    {
        let text = chars_of(content);
        let patterns = addressing_pattern_list();
        let mut i: usize = 0;
        while i < patterns.len()
            invariant
                i <= 3,
                patterns@.len() == 3,
                text@ == content@,
                forall|t: int| 0 <= t < 3 ==> #[trigger] patterns@[t]@ == addressing_patterns()[t],
                forall|t: int| 0 <= t < i ==> !contains_spec(content@, #[trigger] addressing_patterns()[t]),
            decreases patterns.len() - i,
        {
            if contains(&text, &chars_of(patterns[i])) {
                return "addressing_preference".to_string();
            }
            i = i + 1;
        }
        proof {
            assert(!mentions_addressing(content@));
        }
        match metadata {
            Some(meta) => {
                match &meta.content_category {
                    Some(c) => {
                        return c.clone();
                    },
                    None => {},
                }
                let mut k: usize = 0;
                while k < meta.tags.len()
                    invariant
                        k <= meta.tags@.len(),
                        rule_tag_from(meta.tags@, 0) == rule_tag_from(meta.tags@, k as int),
                        !mentions_addressing(content@),
                        metadata == Some(meta),
                        meta.content_category is None,
                    decreases meta.tags.len() - k,
                {
                    let lower = to_lowercase(&chars_of(meta.tags[k].as_str()));
                    if eq_str(&lower, "group_rule") {
                        return "group_rule".to_string();
                    }
                    if eq_str(&lower, "bot_rule") {
                        return "bot_rule".to_string();
                    }
                    if eq_str(&lower, "public_rule") {
                        return "public_rule".to_string();
                    }
                    k = k + 1;
                }
                "generic".to_string()
            },
            None => "generic".to_string(),
        }
    }

    /// The applicability of `category` for a record owned by `user_id` in `group_id`.
    pub fn _normalize_applicability_scope(
        &self,
        category: &str,
        user_id: &Option<String>,
        group_id: &Option<String>,
    ) -> (r: StrMap<String>)
        ensures
            r.wf(),
            applicability_spec(r@, category@, *user_id, *group_id),
    {
        proof {
            reveal_strlit("kind");
            reveal_strlit("user_id");
            reveal_strlit("group_id");
        }
        let c = chars_of(category);
        let mut scope: StrMap<String> = StrMap::new();
        let kind: &str;
        if eq_str(&c, "addressing_preference") {
            match user_id {
                Some(u) => scope.insert(chars_of("user_id"), u.clone()),
                None => {},
            }
            kind = "self_only";
        } else if eq_str(&c, "group_rule") {
            match group_id {
                Some(g) => scope.insert(chars_of("group_id"), g.clone()),
                None => {},
            }
            kind = "group_members";
        } else if eq_str(&c, "bot_rule") || eq_str(&c, "public_rule") {
            kind = "public";
        } else if eq_str(&c, "personal_info") || eq_str(&c, "preference") {
            kind = "self_only";
        } else if eq_str(&c, "event") || eq_str(&c, "opinion") {
            kind = "direct_users";
        } else {
            kind = "public";
        }
        let ghost before = scope@;
        scope.insert(chars_of("kind"), kind.to_string());
        proof {
            assert(scope@ == before.insert("kind"@, scope@["kind"@]));
            reveal_strlit("kind");
            reveal_strlit("user_id");
            reveal_strlit("group_id");
            reveal_strlit("addressing_preference");
            reveal_strlit("group_rule");
            assert("kind"@.len() == 4 && "user_id"@.len() == 7 && "group_id"@.len() == 8);
            assert("addressing_preference"@.len() == 21 && "group_rule"@.len() == 10);
            assert("kind"@ != "user_id"@);
            assert("kind"@ != "group_id"@);
            assert(lookup(scope@, "kind"@) == Some(scope_kind_spec(category@)));
            assert(lookup(scope@, "user_id"@) == lookup(before, "user_id"@));
            assert(lookup(scope@, "group_id"@) == lookup(before, "group_id"@));
        }
        scope
    }

    /// Category, visibility and applicability of `record`.
    pub fn normalize_memory_record(&self, record: &MemoryRecord) -> (r: NormalizedRecord)
        ensures
            r.content_category@ == category_spec(record.content@, record.metadata),
            r.visibility == (if shared_category(r.content_category@) {
                MemoryVisibility::Shared
            } else {
                MemoryVisibility::Private
            }),
            r.applicability_scope.wf(),
            applicability_spec(
                r.applicability_scope@,
                r.content_category@,
                record.user_id,
                record.group_id,
            ),
    {
        let category = self._normalize_category(record.content.as_str(), record.metadata.as_ref());
        let visibility = self._normalize_visibility(category.as_str());
        let scope = self._normalize_applicability_scope(
            category.as_str(),
            &record.user_id,
            &record.group_id,
        );
        NormalizedRecord { content_category: category, visibility, applicability_scope: scope }
    }

    /// A request context from its parts.
    pub fn build_context(
        requester_user_id: &str,
        message_type: &str,
        group_id: &str,
        read_scope: &str,
        platform: &str,
        hour_of_day: i32,
    ) -> (r: MemoryAccessContext)
        ensures
            r.requester_user_id@ == requester_user_id@,
            r.message_type@ == message_type@,
            r.group_id@ == group_id@,
            r.read_scope@ == read_scope@,
            r.platform@ == platform@,
            r.hour_of_day == hour_of_day,
    {
        MemoryAccessContext {
            requester_user_id: requester_user_id.to_string(),
            message_type: message_type.to_string(),
            group_id: group_id.to_string(),
            read_scope: read_scope.to_string(),
            platform: platform.to_string(),
            hour_of_day,
        }
    }

    /// Group, bot and public rules are shared; every other category,
    /// addressing preferences among them, stays private.
    pub fn _normalize_visibility(&self, category: &str) -> (r: MemoryVisibility)
        ensures
            r == (if shared_category(category@) {
                MemoryVisibility::Shared
            } else {
                MemoryVisibility::Private
            }),
    {
        let c = chars_of(category);
        if eq_str(&c, "group_rule") || eq_str(&c, "bot_rule") || eq_str(&c, "public_rule") {
            MemoryVisibility::Shared
        } else {
            MemoryVisibility::Private
        }
    }

    /// Whether a memory with applicability `memory_scope` applies to `context`.
    pub fn _scope_matches(&self, memory_scope: &StrMap<String>, context: &MemoryAccessContext) -> (r: bool)
        requires
            memory_scope.wf(),
        ensures
            r == scope_matches_spec(memory_scope@, context),
    {
        let kind = match lookup_chars(memory_scope, "kind") {
            Some(k) => k,
            None => chars_of("self_only"),
        };
        if eq_str(&kind, "self_only") || eq_str(&kind, "direct_users") {
            match lookup_chars(memory_scope, "user_id") {
                Some(u) => eq_str(&u, context.requester_user_id.as_str()),
                None => false,
            }
        } else if eq_str(&kind, "group_members") {
            let by_group = match lookup_chars(memory_scope, "group_id") {
                Some(g) => eq_str(&g, context.group_id.as_str()),
                None => false,
            };
            by_group || eq_str(&chars_of(context.read_scope.as_str()), "group")
        } else {
            eq_str(&kind, "public")
        }
    }

    /// Whether the memory's owner is the requester.
    pub fn _owner_matches(&self, memory_user_id: &str, context: &MemoryAccessContext) -> (r: bool)
        ensures
            r == (memory_user_id@ == context.requester_user_id@),
    {
        eq_str(&chars_of(memory_user_id), context.requester_user_id.as_str())
    }
}

impl Default for MemoryAccessPolicy {
    /// The same policy as `new`.
    fn default() -> (r: Self)
        ensures
            r.private_allowed_types@ == seq![
                MemoryType::Fact,
                MemoryType::Preference,
                MemoryType::Event,
                MemoryType::Opinion,
                MemoryType::Relationship,
            ],
            r.group_allowed_types@ == seq![MemoryType::Fact, MemoryType::Event],
    {
        Self::new()
    }
}

} // verus!

verus! {

/// Under the standard policy every memory may be shown in a private chat,
/// and in a group chat exactly the facts and events.
pub proof fn law_standard_policy_visibility(policy: &MemoryAccessPolicy, memory: MemoryItem, group: String)
    requires
        policy.private_allowed_types@ == seq![
            MemoryType::Fact,
            MemoryType::Preference,
            MemoryType::Event,
            MemoryType::Opinion,
            MemoryType::Relationship,
        ],
        policy.group_allowed_types@ == seq![MemoryType::Fact, MemoryType::Event],
    ensures
        accessible(policy, memory, &ChatScope::Private),
        accessible(policy, memory, &ChatScope::Group(group)) <==> (memory.memory_type
            == MemoryType::Fact || memory.memory_type == MemoryType::Event),
{
    let p = policy.private_allowed_types@;
    let g = policy.group_allowed_types@;
    match memory.memory_type {
        MemoryType::Fact => {
            assert(p[0] == memory.memory_type);
            assert(g[0] == memory.memory_type);
        },
        MemoryType::Preference => {
            assert(p[1] == memory.memory_type);
        },
        MemoryType::Event => {
            assert(p[2] == memory.memory_type);
            assert(g[1] == memory.memory_type);
        },
        MemoryType::Opinion => {
            assert(p[3] == memory.memory_type);
        },
        MemoryType::Relationship => {
            assert(p[4] == memory.memory_type);
        },
    }
}

/// A sequence already in order of importance is its own stable ordering:
/// any ordering by importance that keeps each importance class in order
/// gives it back unchanged.
pub proof fn law_sorting_sorted_changes_nothing(s: Seq<MemoryItem>, r: Seq<MemoryItem>)
    requires
        importance_desc(s),
        importance_desc(r),
        r.len() == s.len(),
        forall|v: u64| #[trigger] r.filter(importance_is(v)) == s.filter(importance_is(v)),
    ensures
        r == s,
    decreases s.len(),
{
    if s.len() > 0 {
        let x = s.last();
        let y = r.last();
        let fx = importance_is(x.importance);
        let fy = importance_is(y.importance);
        // the last items have the same importance: the least one of both
        lemma_last_is_least_class(s, x.importance);
        lemma_last_is_least_class(r, y.importance);
        assert(r.filter(fx) == s.filter(fx));
        assert(r.filter(fy) == s.filter(fy));
        lemma_filter_nonempty_has(s, fx, s.len() - 1);
        lemma_filter_nonempty_has(r, fy, r.len() - 1);
        lemma_class_member_bound(r, fx, y.importance);
        lemma_class_member_bound(s, fy, x.importance);
        assert(x.importance == y.importance);
        // both end with the last member of that class
        lemma_filter_last(s, fx);
        lemma_filter_last(r, fx);
        assert(x == y);
        assert forall|v: u64| #[trigger] r.drop_last().filter(importance_is(v)) == s.drop_last().filter(
            importance_is(v),
        ) by {
            lemma_filter_push(s.drop_last(), x, importance_is(v));
            lemma_filter_push(r.drop_last(), y, importance_is(v));
            assert(s.drop_last().push(x) =~= s);
            assert(r.drop_last().push(y) =~= r);
            let a = s.drop_last().filter(importance_is(v));
            let b = r.drop_last().filter(importance_is(v));
            if x.importance == v {
                assert(a + seq![x] == b + seq![x]);
                assert(a =~= (a + seq![x]).drop_last());
                assert(b =~= (b + seq![x]).drop_last());
            } else {
                assert(a + Seq::<MemoryItem>::empty() =~= a);
                assert(b + Seq::<MemoryItem>::empty() =~= b);
            }
        }
        law_sorting_sorted_changes_nothing(s.drop_last(), r.drop_last());
        assert(s =~= s.drop_last().push(x));
        assert(r =~= r.drop_last().push(y));
    }
}

proof fn lemma_last_is_least_class(s: Seq<MemoryItem>, v: u64)
    requires
        importance_desc(s),
        s.len() > 0,
        v == s.last().importance,
    ensures
        forall|t: int| 0 <= t < s.len() ==> #[trigger] s[t].importance >= v,
{
    assert forall|t: int| 0 <= t < s.len() implies #[trigger] s[t].importance >= v by {
        if t < s.len() - 1 {
            assert(s[t].importance >= s[s.len() - 1].importance);
        }
    }
}

proof fn lemma_filter_nonempty_has(s: Seq<MemoryItem>, f: spec_fn(MemoryItem) -> bool, i: int)
    requires
        0 <= i < s.len(),
        f(s[i]),
    ensures
        s.filter(f).contains(s[i]),
{
    s.lemma_filter_contains(f, i);
}

proof fn lemma_class_member_bound(s: Seq<MemoryItem>, f: spec_fn(MemoryItem) -> bool, v: u64)
    requires
        forall|t: int| 0 <= t < s.len() ==> #[trigger] s[t].importance >= v,
    ensures
        forall|x: MemoryItem| #[trigger] s.filter(f).contains(x) ==> x.importance >= v,
{
    assert forall|x: MemoryItem| #[trigger] s.filter(f).contains(x) implies x.importance >= v by {
        s.lemma_filter_contains_rev(f, x);
    }
}

proof fn lemma_filter_last(s: Seq<MemoryItem>, f: spec_fn(MemoryItem) -> bool)
    requires
        s.len() > 0,
        f(s.last()),
    ensures
        s.filter(f).len() > 0,
        s.filter(f).last() == s.last(),
{
    reveal_with_fuel(Seq::filter, 1);
}

} // verus!

verus! {

/// The key under which prompt entries are the same: the content trimmed
/// and lower-cased.
pub open spec fn entry_key(e: PromptEntry) -> Seq<char> {
    lowercase_of(trim_spec(e.content@))
}

/// The entry at `i` is the first with its key, and that key is not empty.
pub open spec fn first_of_key(es: Seq<PromptEntry>, i: int) -> bool {
    &&& entry_key(es[i]).len() > 0
    &&& forall|j: int| 0 <= j < i ==> entry_key(#[trigger] es[j]) != entry_key(es[i])
}

/// Of the first `n` entries, those first with their key, in order.
pub open spec fn first_entries(es: Seq<PromptEntry>, n: nat) -> Seq<PromptEntry>
    decreases n,
{
    if n == 0 || n > es.len() {
        Seq::empty()
    } else {
        let p = first_entries(es, (n - 1) as nat);
        if first_of_key(es, n - 1) {
            p.push(es[n - 1])
        } else {
            p
        }
    }
}

impl MemoryAccessPolicy {
    /// One entry per key (content trimmed and lower-cased), the first that
    /// has it, in the order given; entries with empty content are dropped.
    pub fn dedupe_prompt_entries(&self, entries: &[PromptEntry]) -> (r: Vec<PromptEntry>)
        ensures
            r@ == first_entries(entries@, entries@.len()),
    {
        let ghost es = entries@;
        let mut out: Vec<PromptEntry> = Vec::new();
        let mut keys: Vec<Vec<char>> = Vec::new();
        let mut i: usize = 0;
        while i < entries.len()
            invariant
                i <= es.len(),
                es == entries@,
                out@ == first_entries(es, i as nat),
                views(keys@) == first_entries(es, i as nat).map_values(|e: PromptEntry| entry_key(e)),
                forall|j: int| 0 <= j < i && entry_key(es[j]).len() > 0 ==> views(keys@).contains(#[trigger] entry_key(es[j])),
                forall|t: int| #![trigger views(keys@)[t]] 0 <= t < keys@.len() ==> exists|j: int| 0 <= j < i && entry_key(#[trigger] es[j]) == views(keys@)[t],
            decreases entries.len() - i,
        {
            let key = to_lowercase(&trim(&chars_of(entries[i].content.as_str())));
            let seen = contains_piece(&keys, &key);
            proof {
                assert(key@ == entry_key(es[i as int]));
                if key@.len() > 0 {
                    if seen {
                        let t = choose|t: int| 0 <= t < views(keys@).len() && views(keys@)[t] == key@;
                        let j = choose|j: int| 0 <= j < i && entry_key(#[trigger] es[j]) == views(keys@)[t];
                        assert(!first_of_key(es, i as int));
                    } else {
                        assert forall|j: int| 0 <= j < i implies entry_key(#[trigger] es[j]) != entry_key(es[i as int]) by {
                            if entry_key(es[j]).len() > 0 {
                                assert(views(keys@).contains(entry_key(es[j])));
                            }
                        }
                        assert(first_of_key(es, i as int));
                    }
                }
            }
            if key.len() > 0 && !seen {
                let ghost before_keys = views(keys@);
                out.push(entries[i].duplicate());
                keys.push(key);
                proof {
                    assert(views(keys@) =~= before_keys.push(entry_key(es[i as int])));
                    assert(first_entries(es, (i + 1) as nat) == first_entries(es, i as nat).push(es[i as int]));
                    assert(first_entries(es, (i + 1) as nat).map_values(|e: PromptEntry| entry_key(e)) =~= first_entries(es, i as nat).map_values(|e: PromptEntry| entry_key(e)).push(entry_key(es[i as int])));
                    assert forall|j: int| 0 <= j < i + 1 && entry_key(es[j]).len() > 0 implies views(keys@).contains(#[trigger] entry_key(es[j])) by {
                        if j < i {
                            assert(before_keys.contains(entry_key(es[j])));
                            let t = choose|t: int| 0 <= t < before_keys.len() && before_keys[t] == entry_key(es[j]);
                            assert(views(keys@)[t] == before_keys[t]);
                        } else {
                            assert(views(keys@)[before_keys.len() as int] == entry_key(es[j]));
                        }
                    }
                    assert forall|t: int| #![trigger views(keys@)[t]] 0 <= t < keys@.len() implies exists|j: int| 0 <= j < i + 1 && entry_key(#[trigger] es[j]) == views(keys@)[t] by {
                        if t < before_keys.len() {
                            assert(views(keys@)[t] == before_keys[t]);
                            let j = choose|j: int| 0 <= j < i && entry_key(#[trigger] es[j]) == before_keys[t];
                            assert(entry_key(es[j]) == views(keys@)[t]);
                        } else {
                            assert(entry_key(es[i as int]) == views(keys@)[t]);
                        }
                    }
                }
            } else {
                proof {
                    assert(first_entries(es, (i + 1) as nat) == first_entries(es, i as nat));
                    assert forall|j: int| 0 <= j < i + 1 && entry_key(es[j]).len() > 0 implies views(keys@).contains(#[trigger] entry_key(es[j])) by {
                        if j == i {
                            assert(seen);
                        }
                    }
                }
            }
            i = i + 1;
        }
        out
    }
}

} // verus!

verus! {

/// A memory whose scope is of kind `direct_users` or `self_only` applies to
/// a request exactly when its scope names a `user_id` equal to the
/// requester's; `group_members` scopes apply to requests from their group
/// or read at group scope; `public` scopes apply to every request; scopes
/// of an unknown kind apply to none.
pub proof fn law_user_scopes_apply_only_to_their_user(
    scope: Map<Seq<char>, String>,
    context: MemoryAccessContext,
)
    ensures
        scope.dom().contains("kind"@) && (scope["kind"@]@ == "direct_users"@ || scope["kind"@]@
            == "self_only"@) ==> (scope_matches_spec(scope, &context) <==> (scope.dom().contains(
            "user_id"@,
        ) && scope["user_id"@]@ == context.requester_user_id@)),
        !scope.dom().contains("kind"@) ==> (scope_matches_spec(scope, &context) <==> (
        scope.dom().contains("user_id"@) && scope["user_id"@]@ == context.requester_user_id@)),
        scope.dom().contains("kind"@) && scope["kind"@]@ == "public"@ ==> scope_matches_spec(
            scope,
            &context,
        ),
        scope.dom().contains("kind"@) && scope["kind"@]@ == "group_members"@ ==> (scope_matches_spec(
            scope,
            &context,
        ) <==> ((scope.dom().contains("group_id"@) && scope["group_id"@]@ == context.group_id@)
            || context.read_scope@ == "group"@)),
        scope.dom().contains("kind"@) && scope["kind"@]@ != "public"@ && scope["kind"@]@
            != "group_members"@ && scope["kind"@]@ != "direct_users"@ && scope["kind"@]@
            != "self_only"@ ==> !scope_matches_spec(scope, &context),
{
    reveal_strlit("direct_users");
    reveal_strlit("self_only");
    reveal_strlit("group_members");
    reveal_strlit("public");
    assert("direct_users"@ != "group_members"@) by {
        assert("direct_users"@.len() != "group_members"@.len());
    }
    assert("self_only"@ != "group_members"@) by {
        assert("self_only"@.len() != "group_members"@.len());
    }
    assert("public"@ != "group_members"@ && "public"@ != "self_only"@ && "public"@
        != "direct_users"@) by {
        assert("public"@.len() != "group_members"@.len());
        assert("public"@.len() != "self_only"@.len());
        assert("public"@.len() != "direct_users"@.len());
    }
}

} // verus!
