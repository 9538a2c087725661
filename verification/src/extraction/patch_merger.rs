//! Merging newly extracted memories into what is already known.
use vstd::prelude::*;

use crate::core_types::{MemoryItem, MemoryPatch};
use crate::text::{
    chars_of, concat_chars, eq_str, lowercase_of, string_of, sub_chars, to_lowercase, trim, trim_spec,
};

verus! {

/// Merges memory patches, dropping new memories that repeat known ones.
pub struct PatchMerger;

/// Lower-cased, trimmed content, normalised for comparison.
pub open spec fn dedup_norm(content: Seq<char>) -> Seq<char> {
    lowercase_of(trim_spec(content))
}

/// Number of leading characters of the normalised content compared for duplicates.
pub const DEDUP_PREFIX_CHARS: usize = 30;

/// The first 30 characters (all of them when fewer) of the normalised
/// content compared for duplicates.
pub open spec fn dedup_prefix(content: Seq<char>) -> Seq<char> {
    let n = dedup_norm(content);
    if n.len() <= DEDUP_PREFIX_CHARS {
        n
    } else {
        n.take(DEDUP_PREFIX_CHARS as int)
    }
}

/// Positions below both lengths where `a` and `b` hold the same character.
pub open spec fn common_positions(a: Seq<char>, b: Seq<char>) -> nat
    decreases a.len(),
{
    if a.len() == 0 || b.len() == 0 {
        0
    } else {
        common_positions(a.drop_first(), b.drop_first()) + if a[0] == b[0] {
            1nat
        } else {
            0nat
        }
    }
}

/// The prefix and a known memory agree on more than three quarters of the
/// positions of the shorter one (compared against the longer one's start).
pub open spec fn similar_spec(prefix: Seq<char>, existing: Seq<char>) -> bool {
    let e = dedup_norm(existing);
    let m = if prefix.len() <= e.len() {
        prefix.len()
    } else {
        e.len()
    };
    let short = if prefix.len() <= e.len() {
        prefix
    } else {
        e
    };
    let long = if prefix.len() <= e.len() {
        e
    } else {
        prefix
    };
    m > 0 && 4 * common_positions(short, long.take(m as int)) > 3 * m
}

/// `content` repeats one of `existing`.
pub open spec fn duplicate_spec(content: Seq<char>, existing: Seq<Seq<char>>) -> bool {
    exists|i: int| 0 <= i < existing.len() && similar_spec(dedup_prefix(content), #[trigger] existing[i])
}

/// Contents of the memories that the patches add, in order.
pub open spec fn added_contents(patches: Seq<MemoryPatch>) -> Seq<Seq<char>>
    decreases patches.len(),
{
    if patches.len() == 0 {
        Seq::empty()
    } else {
        added_contents(patches.drop_last()) + patches.last().add@.map_values(
            |m: MemoryItem| m.content@,
        )
    }
}

/// Patch status of the new memory after a reflection with this (lower-cased) action.
pub open spec fn new_status_spec(action: Seq<char>) -> Seq<char> {
    if action == "prefer_existing"@ {
        "superseded"@
    } else if action == "prefer_new"@ || action == "keep_both_prefer_recent"@ || action
        == "merge_context"@ {
        "active_patch"@
    } else {
        "conflict_reflected"@
    }
}

/// Patch status of the existing memory after a reflection with this (lower-cased) action.
pub open spec fn existing_status_spec(action: Seq<char>) -> Seq<char> {
    if action == "prefer_new"@ || action == "keep_both_prefer_recent"@ {
        "superseded"@
    } else if action == "merge_context"@ {
        "contextualized"@
    } else {
        "active"@
    }
}

fn common_positions_exec(a: &[char], b: &[char]) -> (r: usize)
    ensures
        r == common_positions(a@, b@),
{
    let mut i: usize = 0;
    let mut count: usize = 0;
    proof {
        assert(a@.skip(0) =~= a@);
        assert(b@.skip(0) =~= b@);
    }
    while i < a.len() && i < b.len()
        invariant
            i <= a@.len(),
            i <= b@.len(),
            count <= i,
            count + common_positions(a@.skip(i as int), b@.skip(i as int)) == common_positions(
                a@,
                b@,
            ),
        decreases a.len() - i,
    {
        proof {
            assert(a@.skip(i as int).drop_first() =~= a@.skip(i + 1));
            assert(b@.skip(i as int).drop_first() =~= b@.skip(i + 1));
            assert(a@.skip(i as int)[0] == a@[i as int]);
            assert(b@.skip(i as int)[0] == b@[i as int]);
        }
        if a[i] == b[i] {
            count = count + 1;
        }
        i = i + 1;
    }
    proof {
        assert(a@.skip(i as int).len() == 0 || b@.skip(i as int).len() == 0);
    }
    count
}

fn similar(prefix: &[char], existing: &str) -> (r: bool)
    ensures
        r == similar_spec(prefix@, existing@),
{
    let e = to_lowercase(&trim(&chars_of(existing)));
    let (m, short, long) = if prefix.len() <= e.len() {
        (prefix.len(), prefix, e.as_slice())
    } else {
        (e.len(), e.as_slice(), prefix)
    };
    if m == 0 {
        return false;
    }
    let long_prefix = crate::text::sub_chars(long, 0, m);
    let common = common_positions_exec(short, &long_prefix);
    proof {
        assert(long_prefix@ =~= long@.take(m as int));
    }
    (common as u128) * 4 > (m as u128) * 3
}

/// Copies of the contents that the patches add, in order.
fn collect_added(patches: &[MemoryPatch]) -> (r: Vec<String>)
    ensures
        r@.map_values(|s: String| s@) == added_contents(patches@),
{
    let mut r: Vec<String> = Vec::new();
    let mut i: usize = 0;
    proof {
        assert(patches@.take(0) =~= Seq::<MemoryPatch>::empty());
        assert(r@.map_values(|s: String| s@) =~= Seq::<Seq<char>>::empty());
    }
    while i < patches.len()
        invariant
            i <= patches@.len(),
            r@.map_values(|s: String| s@) == added_contents(patches@.take(i as int)),
        decreases patches.len() - i,
    {
        let p = &patches[i];
        let mut j: usize = 0;
        let ghost base = r@.map_values(|s: String| s@);
        proof {
            assert(p.add@.take(0).map_values(|m: MemoryItem| m.content@) =~= Seq::<Seq<char>>::empty());
            assert(base + Seq::<Seq<char>>::empty() =~= base);
        }
        while j < p.add.len()
            invariant
                j <= p.add@.len(),
                r@.map_values(|s: String| s@) == base + p.add@.take(j as int).map_values(
                    |m: MemoryItem| m.content@,
                ),
            decreases p.add.len() - j,
        {
            let ghost before = r@.map_values(|s: String| s@);
            r.push(p.add[j].content.clone());
            proof {
                assert(r@.map_values(|s: String| s@) =~= before.push(p.add@[j as int].content@));
                assert(p.add@.take(j + 1).map_values(|m: MemoryItem| m.content@) =~= p.add@.take(
                    j as int,
                ).map_values(|m: MemoryItem| m.content@).push(p.add@[j as int].content@));
            }
            j = j + 1;
        }
        proof {
            assert(p.add@.take(p.add@.len() as int) =~= p.add@);
            assert(patches@.take(i + 1).drop_last() =~= patches@.take(i as int));
            assert(patches@.take(i + 1).last() == *p);
        }
        i = i + 1;
    }
    proof {
        assert(patches@.take(patches@.len() as int) =~= patches@);
    }
    r
}

/// The normalised content cut to its first 30 characters.
fn prefix_of(content: &str) -> (r: Vec<char>)
    ensures
        r@ == dedup_prefix(content@),
{
    let norm = to_lowercase(&trim(&chars_of(content)));
    let n = if norm.len() <= DEDUP_PREFIX_CHARS {
        norm.len()
    } else {
        DEDUP_PREFIX_CHARS
    };
    let r = sub_chars(&norm, 0, n);
    proof {
        assert(norm@.subrange(0, norm@.len() as int) =~= norm@);
    }
    r
}

fn duplicate_in(content: &str, existing: &Vec<String>) -> (r: bool)
    ensures
        r == duplicate_spec(content@, existing@.map_values(|s: String| s@)),
{
    let prefix = prefix_of(content);
    let ghost ex = existing@.map_values(|s: String| s@);
    let mut i: usize = 0;
    while i < existing.len()
        invariant
            i <= existing@.len(),
            ex == existing@.map_values(|s: String| s@),
            prefix@ == dedup_prefix(content@),
            forall|t: int| 0 <= t < i ==> !similar_spec(prefix@, #[trigger] ex[t]),
        decreases existing.len() - i,
    {
        if similar(&prefix, existing[i].as_str()) {
            proof {
                assert(ex[i as int] == existing@[i as int]@);
            }
            return true;
        }
        proof {
            assert(ex[i as int] == existing@[i as int]@);
        }
        i = i + 1;
    }
    false
}

impl PatchMerger {
    pub fn new() -> Self {
        PatchMerger
    }

    /// Whether a memory with this `patch_status` (the metadata's string
    /// value, if any) is hidden: it was superseded or folded into context.
    pub fn is_suppressed_memory(patch_status: Option<&str>) -> (r: bool)
        ensures
            r == match patch_status {
                Some(s) => s@ == "superseded"@ || s@ == "contextualized"@,
                None => false,
            },
    {
        match patch_status {
            Some(s) => {
                let c = chars_of(s);
                eq_str(&c, "superseded") || eq_str(&c, "contextualized")
            },
            None => false,
        }
    }

    /// Whether `content` repeats one of `existing`: its trimmed, lower-cased
    /// text cut to its first 30 characters is compared with each known memory
    /// (trimmed, lower-cased); they repeat when more than three quarters of
    /// the shorter one's characters match the longer one's at the same
    /// positions.
    pub fn is_duplicate(&self, content: &str, existing: &[&str]) -> (r: bool)
        ensures
            r == duplicate_spec(content@, existing@.map_values(|s: &str| s@)),
    {
        let prefix = prefix_of(content);
        let ghost ex = existing@.map_values(|s: &str| s@);
        let mut i: usize = 0;
        while i < existing.len()
            invariant
                i <= existing@.len(),
                ex == existing@.map_values(|s: &str| s@),
                prefix@ == dedup_prefix(content@),
                forall|t: int| 0 <= t < i ==> !similar_spec(prefix@, #[trigger] ex[t]),
            decreases existing.len() - i,
        {
            if similar(&prefix, existing[i]) {
                proof {
                    assert(ex[i as int] == existing@[i as int]@);
                }
                return true;
            }
            proof {
                assert(ex[i as int] == existing@[i as int]@);
            }
            i = i + 1;
        }
        false
    }

    /// The new patch without the added memories that repeat a memory added
    /// by an existing patch; its updates and removals pass unchanged.
    pub fn merge(&self, existing_patches: &[MemoryPatch], new_patch: &MemoryPatch) -> (r: Result<
        MemoryPatch,
        String,
    >)
        ensures
            match r {
                Ok(p) => {
                    &&& p.add@ == new_patch.add@.filter(kept_by_merge(existing_patches@))
                    &&& p.update@ == new_patch.update@
                    &&& p.remove@ == new_patch.remove@
                },
                Err(_) => false,
            },
    {
        let existing = collect_added(existing_patches);
        let ghost ex = added_contents(existing_patches@);
        let mut add: Vec<MemoryItem> = Vec::new();
        let mut i: usize = 0;
        proof {
            assert(new_patch.add@.take(0).filter(|m: MemoryItem| !duplicate_spec(m.content@, ex))
                =~= Seq::<MemoryItem>::empty());
        }
        while i < new_patch.add.len()
            invariant
                i <= new_patch.add@.len(),
                ex == existing@.map_values(|s: String| s@),
                add@ == new_patch.add@.take(i as int).filter(
                    |m: MemoryItem| !duplicate_spec(m.content@, ex),
                ),
            decreases new_patch.add.len() - i,
        {
            let item = &new_patch.add[i];
            proof {
                assert(new_patch.add@.take(i + 1).drop_last() =~= new_patch.add@.take(i as int));
                reveal_with_fuel(Seq::filter, 1);
            }
            if !duplicate_in(item.content.as_str(), &existing) {
                add.push(item.duplicate());
            }
            i = i + 1;
        }
        proof {
            assert(new_patch.add@.take(new_patch.add@.len() as int) =~= new_patch.add@);
        }
        let mut update: Vec<MemoryItem> = Vec::new();
        let mut j: usize = 0;
        while j < new_patch.update.len()
            invariant
                j <= new_patch.update@.len(),
                update@ == new_patch.update@.take(j as int),
            decreases new_patch.update.len() - j,
        {
            update.push(new_patch.update[j].duplicate());
            proof {
                assert(new_patch.update@.take(j + 1) =~= new_patch.update@.take(j as int).push(
                    new_patch.update@[j as int],
                ));
            }
            j = j + 1;
        }
        let mut remove: Vec<String> = Vec::new();
        let mut k: usize = 0;
        while k < new_patch.remove.len()
            invariant
                k <= new_patch.remove@.len(),
                remove@ == new_patch.remove@.take(k as int),
            decreases new_patch.remove.len() - k,
        {
            remove.push(new_patch.remove[k].clone());
            proof {
                assert(new_patch.remove@.take(k + 1) =~= new_patch.remove@.take(k as int).push(
                    new_patch.remove@[k as int],
                ));
            }
            k = k + 1;
        }
        proof {
            assert(new_patch.update@.take(new_patch.update@.len() as int) =~= new_patch.update@);
            assert(new_patch.remove@.take(new_patch.remove@.len() as int) =~= new_patch.remove@);
        }
        Ok(MemoryPatch { add, update, remove })
    }

    /// Status the new memory takes after a reflection whose lower-cased
    /// action is given.
    pub fn new_patch_status_for(action_lowered: &[char]) -> (r: String)
        ensures
            r@ == new_status_spec(action_lowered@),
    {
        if eq_str(action_lowered, "prefer_existing") {
            "superseded".to_string()
        } else if eq_str(action_lowered, "prefer_new") || eq_str(
            action_lowered,
            "keep_both_prefer_recent",
        ) || eq_str(action_lowered, "merge_context") {
            "active_patch".to_string()
        } else {
            "conflict_reflected".to_string()
        }
    }

    /// Status the existing memory takes after a reflection whose lower-cased
    /// action is given.
    pub fn existing_patch_status_for(action_lowered: &[char]) -> (r: String)
        ensures
            r@ == existing_status_spec(action_lowered@),
    {
        if eq_str(action_lowered, "prefer_new") || eq_str(
            action_lowered,
            "keep_both_prefer_recent",
        ) {
            "superseded".to_string()
        } else if eq_str(action_lowered, "merge_context") {
            "contextualized".to_string()
        } else {
            "active".to_string()
        }
    }

    /// New memory's status after a reflection: `superseded` when the
    /// existing one is preferred; `active_patch` for prefer_new,
    /// keep_both_prefer_recent and merge_context; else `conflict_reflected`
    /// (the action is compared lower-cased).
    pub fn resolve_new_memory_patch_status(action: &str) -> (r: String)
        ensures
            r@ == new_status_spec(lowercase_of(action@)),
    {
        Self::new_patch_status_for(&to_lowercase(&chars_of(action)))
    }

    /// Existing memory's status after a reflection: `superseded` for
    /// prefer_new and keep_both_prefer_recent, `contextualized` for
    /// merge_context, else `active` (the action is compared lower-cased).
    pub fn resolve_existing_memory_patch_status(action: &str) -> (r: String)
        ensures
            r@ == existing_status_spec(lowercase_of(action@)),
    {
        Self::existing_patch_status_for(&to_lowercase(&chars_of(action)))
    }
}

} // verus!

verus! {

/// What applying a reflection to a new memory and an existing one writes:
/// each one's patch status and relation, and which of them go to the
/// ordinary store with their status.
pub struct PatchMergePlan {
    pub new_status: String,
    pub new_relation: String,
    pub existing_status: String,
    pub existing_relation: String,
    pub store_existing: bool,
    pub store_new: bool,
}

/// Which memories a reflection's action writes to the ordinary store, as
/// (existing one, new one): the existing one where the new one is adopted
/// (`prefer_new`, `keep_both_prefer_recent`), the new one where the
/// existing one is kept (`prefer_existing`). The action is compared as given.
pub fn ordinary_store_target(action: &str) -> (r: (bool, bool))
    ensures
        r == (action@ == "prefer_new"@ || action@ == "keep_both_prefer_recent"@, action@
            == "prefer_existing"@),
{
    let a = chars_of(action);
    (eq_str(&a, "prefer_new") || eq_str(&a, "keep_both_prefer_recent"), eq_str(&a, "prefer_existing"))
}

/// What applying a reflection with `action` writes for the new memory
/// `new_id` and the existing memory `existing_id`: the statuses resolved
/// from the lower-cased action, relations `reflected_against_<other id>`,
/// and the ordinary-store writes of `ordinary_store_target`.
pub fn plan_patch_merge(new_id: &str, existing_id: &str, action: &str) -> (r: PatchMergePlan)
    ensures
        r.new_status@ == new_status_spec(lowercase_of(action@)),
        r.existing_status@ == existing_status_spec(lowercase_of(action@)),
        r.new_relation@ == "reflected_against_"@ + existing_id@,
        r.existing_relation@ == "reflected_against_"@ + new_id@,
        (r.store_existing, r.store_new) == (action@ == "prefer_new"@ || action@
            == "keep_both_prefer_recent"@, action@ == "prefer_existing"@),
{
    let (store_existing, store_new) = ordinary_store_target(action);
    PatchMergePlan {
        new_status: PatchMerger::resolve_new_memory_patch_status(action),
        new_relation: string_of(&concat_chars(&chars_of("reflected_against_"), &chars_of(existing_id))),
        existing_status: PatchMerger::resolve_existing_memory_patch_status(action),
        existing_relation: string_of(&concat_chars(&chars_of("reflected_against_"), &chars_of(new_id))),
        store_existing,
        store_new,
    }
}

} // verus!

verus! {

/// The new memories that a merge against `existing` keeps.
pub open spec fn kept_by_merge(existing: Seq<MemoryPatch>) -> spec_fn(MemoryItem) -> bool {
    |m: MemoryItem| !duplicate_spec(m.content@, added_contents(existing))
}

/// Merging into no earlier patches keeps every new memory.
pub proof fn law_merge_into_nothing_keeps_all(new_add: Seq<MemoryItem>)
    ensures
        new_add.filter(kept_by_merge(Seq::<MemoryPatch>::empty())) == new_add,
    decreases new_add.len(),
{
    let f = kept_by_merge(Seq::<MemoryPatch>::empty());
    reveal(Seq::filter);
    assert(added_contents(Seq::<MemoryPatch>::empty()) =~= Seq::<Seq<char>>::empty());
    if new_add.len() > 0 {
        law_merge_into_nothing_keeps_all(new_add.drop_last());
        assert(f(new_add.last()));
        assert(new_add.drop_last().push(new_add.last()) =~= new_add);
    }
}

/// No memory that a merge keeps duplicates a memory the earlier patches add.
pub proof fn law_merge_keeps_no_duplicate(existing: Seq<MemoryPatch>, new_add: Seq<MemoryItem>)
    ensures
        forall|i: int|
            0 <= i < new_add.filter(kept_by_merge(existing)).len() ==> !duplicate_spec(
                #[trigger] new_add.filter(kept_by_merge(existing))[i].content@,
                added_contents(existing),
            ),
{
    let f = kept_by_merge(existing);
    assert forall|i: int| 0 <= i < new_add.filter(f).len() implies f(
        #[trigger] new_add.filter(f)[i],
    ) by {
        new_add.lemma_filter_pred(f, i);
    }
}

/// Merging the result of a merge against the same earlier patches changes
/// nothing more.
pub proof fn law_merge_twice_is_once(existing: Seq<MemoryPatch>, new_add: Seq<MemoryItem>)
    ensures
        new_add.filter(kept_by_merge(existing)).filter(kept_by_merge(existing)) == new_add.filter(
            kept_by_merge(existing),
        ),
    decreases new_add.len(),
{
    let f = kept_by_merge(existing);
    reveal(Seq::filter);
    if new_add.len() > 0 {
        law_merge_twice_is_once(existing, new_add.drop_last());
        let once = new_add.drop_last().filter(f);
        if f(new_add.last()) {
            assert(once.push(new_add.last()).drop_last() =~= once);
        }
    }
}

} // verus!

verus! {

/// Number of positions below `n` at which `a` and `b` hold the same character.
pub open spec fn agreeing_positions(a: Seq<char>, b: Seq<char>, n: nat) -> nat
    decreases n,
{
    if n == 0 {
        0
    } else {
        agreeing_positions(a, b, (n - 1) as nat) + if a[n - 1] == b[n - 1] {
            1nat
        } else {
            0nat
        }
    }
}

/// The first 30 characters (all of them when fewer) of `content` trimmed
/// and lower-cased agree with `known` trimmed and lower-cased on more than
/// three quarters of the positions of the shorter of the two.
pub open spec fn agrees_on_most_positions(content: Seq<char>, known: Seq<char>) -> bool {
    let n = lowercase_of(trim_spec(content));
    let p = if n.len() <= 30 {
        n
    } else {
        n.take(30)
    };
    let e = lowercase_of(trim_spec(known));
    let m = if p.len() <= e.len() {
        p.len()
    } else {
        e.len()
    };
    m > 0 && 4 * agreeing_positions(p, e, m) > 3 * m
}

proof fn lemma_common_last(x: Seq<char>, y: Seq<char>)
    requires
        x.len() == y.len(),
        x.len() > 0,
    ensures
        common_positions(x, y) == common_positions(x.drop_last(), y.drop_last()) + if x.last()
            == y.last() {
            1nat
        } else {
            0nat
        },
    decreases x.len(),
{
    if x.len() > 1 {
        lemma_common_last(x.drop_first(), y.drop_first());
        assert(x.drop_first().drop_last() =~= x.drop_last().drop_first());
        assert(y.drop_first().drop_last() =~= y.drop_last().drop_first());
        assert(x.drop_first().last() == x.last());
        assert(y.drop_first().last() == y.last());
        assert(x.drop_last()[0] == x[0]);
        assert(y.drop_last()[0] == y[0]);
        assert(common_positions(x.drop_last(), y.drop_last()) == common_positions(
            x.drop_last().drop_first(),
            y.drop_last().drop_first(),
        ) + if x[0] == y[0] {
            1nat
        } else {
            0nat
        });
    } else {
        assert(x.drop_first().len() == 0);
        assert(x.drop_last().len() == 0);
        assert(common_positions(x.drop_first(), y.drop_first()) == 0);
        assert(common_positions(x.drop_last(), y.drop_last()) == 0);
        assert(x.last() == x[0] && y.last() == y[0]);
    }
}

proof fn lemma_common_is_agreeing(a: Seq<char>, b: Seq<char>, n: nat)
    requires
        n <= a.len(),
        n <= b.len(),
    ensures
        common_positions(a.take(n as int), b.take(n as int)) == agreeing_positions(a, b, n),
    decreases n,
{
    if n > 0 {
        lemma_common_last(a.take(n as int), b.take(n as int));
        assert(a.take(n as int).drop_last() =~= a.take(n - 1));
        assert(b.take(n as int).drop_last() =~= b.take(n - 1));
        lemma_common_is_agreeing(a, b, (n - 1) as nat);
    }
}

proof fn lemma_agreeing_symmetric(a: Seq<char>, b: Seq<char>, n: nat)
    ensures
        agreeing_positions(a, b, n) == agreeing_positions(b, a, n),
    decreases n,
{
    if n > 0 {
        lemma_agreeing_symmetric(a, b, (n - 1) as nat);
    }
}

proof fn lemma_similar_is_agreement(content: Seq<char>, known: Seq<char>)
    ensures
        similar_spec(dedup_prefix(content), known) == agrees_on_most_positions(content, known),
{
    let p = dedup_prefix(content);
    let e = dedup_norm(known);
    let m = if p.len() <= e.len() {
        p.len()
    } else {
        e.len()
    };
    if p.len() <= e.len() {
        assert(p.take(m as int) =~= p);
        lemma_common_is_agreeing(p, e, m);
    } else {
        assert(e.take(m as int) =~= e);
        lemma_common_is_agreeing(e, p, m);
        lemma_agreeing_symmetric(e, p, m);
    }
}

/// A new memory counts as a repeat of known ones exactly when its first 30
/// characters (trimmed, lower-cased) agree with one of them (trimmed,
/// lower-cased) on more than three quarters of the positions of the
/// shorter; one that agrees with every known memory on at most three
/// quarters of the positions is no repeat.
pub proof fn law_duplicate_means_most_positions_agree(content: Seq<char>, existing: Seq<Seq<char>>)
    ensures
        duplicate_spec(content, existing) <==> exists|i: int|
            0 <= i < existing.len() && #[trigger] agrees_on_most_positions(content, existing[i]),
{
    if duplicate_spec(content, existing) {
        let i = choose|i: int|
            0 <= i < existing.len() && similar_spec(dedup_prefix(content), #[trigger] existing[i]);
        lemma_similar_is_agreement(content, existing[i]);
    }
    if exists|i: int| 0 <= i < existing.len() && #[trigger] agrees_on_most_positions(content, existing[i]) {
        let i = choose|i: int|
            0 <= i < existing.len() && #[trigger] agrees_on_most_positions(content, existing[i]);
        lemma_similar_is_agreement(content, existing[i]);
    }
}

/// A merge drops a new memory exactly when it agrees on more than three
/// quarters of the compared positions with a memory that an earlier patch
/// added, and keeps it otherwise.
pub proof fn law_merge_drops_only_close_repeats(existing: Seq<MemoryPatch>, m: MemoryItem)
    ensures
        kept_by_merge(existing)(m) <==> forall|i: int|
            0 <= i < added_contents(existing).len() ==> !#[trigger] agrees_on_most_positions(
                m.content@,
                added_contents(existing)[i],
            ),
{
    law_duplicate_means_most_positions_agree(m.content@, added_contents(existing));
}

} // verus!
