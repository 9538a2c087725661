//! Request context of a retrieval and the guard against suppression storms.
use vstd::prelude::*;
use crate::str_map::StrMap;
use crate::text::{chars_of, concat_chars};

verus! {

/// Who asks, where and when (hour of day, or -1 where unknown).
pub struct RetrievalContext {
    pub user_id: String,
    pub group_id: String,
    pub hour_of_day: i32,
}

impl Default for RetrievalContext {
    /// No user, no group, unknown hour.
    fn default() -> (r: Self)
        ensures
            r.user_id@ == Seq::<char>::empty(),
            r.group_id@ == Seq::<char>::empty(),
            r.hour_of_day == -1,
    {
        RetrievalContext { user_id: String::new(), group_id: String::new(), hour_of_day: -1 }
    }
}

/// Times one (memory, query) pair may be suppressed before a clear.
pub const SUPPRESSION_LIMIT: usize = 3;

/// Counts how often each (memory, query) pair was suppressed, so that one
/// memory is not suppressed over and over; the counts are cleared every
/// `cooldown_interval` calls.
pub struct SuppressionRegistry {
    entries: StrMap<usize>,
    cooldown_interval: usize,
    retrieval_count: usize,
}

/// The key of a (memory, query) pair: `mem_id:query_hash`.
pub open spec fn suppression_key(mem_id: Seq<char>, query_hash: Seq<char>) -> Seq<char> {
    mem_id + ":"@ + query_hash
}

/// One call of `should_suppress` on `key` when `calls` calls came before:
/// the counts `pre` are first cleared when `calls` is a positive multiple of
/// `cooldown`; the answer `r` is whether the key's count is under three, and
/// then its count goes up by one.
pub open spec fn suppress_step(
    pre: Map<Seq<char>, usize>,
    calls: usize,
    cooldown: usize,
    key: Seq<char>,
    r: bool,
    post: Map<Seq<char>, usize>,
) -> bool {
    let base = if calls % cooldown == 0 && calls > 0 {
        Map::<Seq<char>, usize>::empty()
    } else {
        pre
    };
    let cur = if base.dom().contains(key) {
        base[key]
    } else {
        0
    };
    &&& r == (cur < 3)
    &&& post == (if cur < 3 {
        base.insert(key, (cur + 1) as usize)
    } else {
        base
    })
}

/// The successor of `c` in `usize`, wrapping to 0.
pub open spec fn next_count(c: usize) -> usize {
    if c == usize::MAX {
        0
    } else {
        (c + 1) as usize
    }
}

impl SuppressionRegistry {
    /// Suppressions counted per key.
    pub closed spec fn counts(&self) -> Map<Seq<char>, usize> {
        self.entries@
    }

    /// Calls between clears.
    pub closed spec fn cooldown(&self) -> usize {
        self.cooldown_interval
    }

    /// Calls so far (wrapping).
    pub closed spec fn calls(&self) -> usize {
        self.retrieval_count
    }

    /// Internal consistency: a valid map whose counts never pass the limit.
    pub closed spec fn wf(&self) -> bool {
        &&& self.entries.wf()
        &&& forall|k: Seq<char>| #[trigger] self.entries@.dom().contains(k) ==> self.entries@[k] <= 3
    }

    /// The count of `key`, 0 where there is none.
    pub open spec fn count_of(&self, key: Seq<char>) -> usize {
        if self.counts().dom().contains(key) {
            self.counts()[key]
        } else {
            0
        }
    }

    /// An empty registry that clears its counts every `cooldown` calls.
    pub fn new(cooldown: usize) -> (r: Self)
        ensures
            r.wf(),
            r.counts() == Map::<Seq<char>, usize>::empty(),
            r.cooldown() == cooldown,
            r.calls() == 0,
    {
        SuppressionRegistry { entries: StrMap::new(), cooldown_interval: cooldown, retrieval_count: 0 }
    }

    /// Whether the pair (`mem_id`, `query_hash`) may be suppressed now.
    /// The counts are first cleared when the number of earlier calls is a
    /// positive multiple of the cooldown; the pair may be suppressed while
    /// its count is under three, and then its count goes up by one.
    pub fn should_suppress(&mut self, mem_id: &str, query_hash: &str) -> (r: bool)
        requires
            old(self).wf(),
            old(self).cooldown() > 0,
        ensures
            final(self).wf(),
            final(self).cooldown() == old(self).cooldown(),
            final(self).calls() == next_count(old(self).calls()),
            suppress_step(
                old(self).counts(),
                old(self).calls(),
                old(self).cooldown(),
                suppression_key(mem_id@, query_hash@),
                r,
                final(self).counts(),
            ),
    {
        let count = self.retrieval_count;
        self.retrieval_count = if count == usize::MAX {
            0
        } else {
            count + 1
        };
        let key = concat_chars(&concat_chars(&chars_of(mem_id), &chars_of(":")), &chars_of(query_hash));
        if count % self.cooldown_interval == 0 && count > 0 {
            self.entries.clear();
        }
        let current: usize = match self.entries.get(&key) {
            Some(v) => *v,
            None => 0,
        };
        if current >= SUPPRESSION_LIMIT {
            return false;
        }
        self.entries.insert(key, current + 1);
        true
    }

    /// Clears every count and the call counter.
    pub fn reset(&mut self)
        requires
            old(self).wf(),
        ensures
            final(self).wf(),
            final(self).counts() == Map::<Seq<char>, usize>::empty(),
            final(self).calls() == 0,
            final(self).cooldown() == old(self).cooldown(),
    {
        self.entries.clear();
        self.retrieval_count = 0;
    }
}

} // verus!

verus! {

// ---------------------------------------------------------------------------
// Histories of calls.

/// How often `k` occurs in `s`.
pub open spec fn occurrences(s: Seq<Seq<char>>, k: Seq<char>) -> nat
    decreases s.len(),
{
    if s.len() == 0 {
        0
    } else {
        occurrences(s.drop_last(), k) + if s.last() == k {
            1nat
        } else {
            0nat
        }
    }
}

/// The count a map holds for `k`, 0 where it has none.
pub open spec fn count_in(m: Map<Seq<char>, usize>, k: Seq<char>) -> nat {
    if m.dom().contains(k) {
        m[k] as nat
    } else {
        0
    }
}

/// The first call whose key the counts hold after `n` calls: the last
/// clear, at a positive multiple of the cooldown, or the start.
pub open spec fn counted_from(n: nat, cooldown: nat) -> nat {
    if n == 0 {
        0
    } else {
        (((n - 1) as nat / cooldown) * cooldown) as nat
    }
}

/// `m` holds, for every key, how often it occurred among the calls `keys`
/// since the last clear, capped at three.
pub open spec fn counts_follow(m: Map<Seq<char>, usize>, keys: Seq<Seq<char>>, cooldown: nat) -> bool {
    forall|k: Seq<char>|
        #[trigger] count_in(m, k) == capped(
            occurrences(keys.subrange(counted_from(keys.len(), cooldown) as int, keys.len() as int), k),
        )
}

/// `o`, at most three.
pub open spec fn capped(o: nat) -> nat {
    if o < 3 {
        o
    } else {
        3
    }
}

proof fn lemma_clear_points(n: int, c: int)
    requires
        c > 0,
        n > 0,
    ensures
        n % c != 0 ==> ((n - 1) / c) * c == (n / c) * c,
        n % c == 0 ==> (n / c) * c == n,
        (n / c) * c <= n,
        0 <= (n / c) * c,
{
    vstd::arithmetic::div_mod::lemma_fundamental_div_mod(n, c);
    vstd::arithmetic::div_mod::lemma_fundamental_div_mod(n - 1, c);
    assert(0 <= n % c < c) by {
        vstd::arithmetic::div_mod::lemma_mod_pos_bound(n, c);
    }
    assert((n / c) * c == c * (n / c)) by (nonlinear_arith);
    assert(n / c >= 0) by {
        vstd::arithmetic::div_mod::lemma_div_pos_is_pos(n, c);
    }
    assert(0 <= (n / c) * c) by (nonlinear_arith)
        requires
            n / c >= 0,
            c > 0,
    ;
    if n % c != 0 {
        vstd::arithmetic::div_mod::lemma_fundamental_div_mod_converse(n - 1, c, n / c, n % c - 1);
    }
}

proof fn lemma_occurrences_push(s: Seq<Seq<char>>, x: Seq<char>, k: Seq<char>)
    ensures
        occurrences(s.push(x), k) == occurrences(s, k) + if x == k {
            1nat
        } else {
            0nat
        },
{
    assert(s.push(x).drop_last() =~= s);
}

/// Whatever calls came since a registry was made or reset, call number `n`
/// (counted from 0) of `should_suppress` on `key` answers whether `key`
/// occurred fewer than three times among the calls since the last clear
/// (calls `(n / cooldown) * cooldown` to `n - 1`), so a key is suppressed at
/// most three times between clears; afterwards the counts again follow the
/// calls. Histories of `usize::MAX` calls or more, where the call counter
/// wraps, are left out.
pub proof fn law_suppression_follows_calls(
    keys: Seq<Seq<char>>,
    cooldown: usize,
    pre: Map<Seq<char>, usize>,
    key: Seq<char>,
    r: bool,
    post: Map<Seq<char>, usize>,
)
    requires
        cooldown > 0,
        keys.len() < usize::MAX,
        counts_follow(pre, keys, cooldown as nat),
        suppress_step(pre, keys.len() as usize, cooldown, key, r, post),
    ensures
        r == (occurrences(
            keys.subrange(((keys.len() / (cooldown as nat)) * cooldown) as int, keys.len() as int),
            key,
        ) < 3),
        counts_follow(post, keys.push(key), cooldown as nat),
{
    let n = keys.len();
    let c = cooldown as nat;
    let w = ((n / c) * c) as int;
    let nk = keys.push(key);
    if n > 0 {
        lemma_clear_points(n as int, c as int);
        assert(w == (n as int / c as int) * (c as int));
    } else {
        assert(n / c == 0) by (nonlinear_arith)
            requires
                n == 0,
                c > 0,
        ;
    }
    assert(0 <= w <= n);
    assert(counted_from(n + 1, c) == w) by {
        assert((n + 1 - 1) as nat == n);
    }
    let cleared = n % c == 0 && n > 0;
    let win = keys.subrange(w, n as int);
    let base = if cleared {
        Map::<Seq<char>, usize>::empty()
    } else {
        pre
    };
    // the counts call `n` decides on follow the window
    assert forall|k: Seq<char>| true implies #[trigger] count_in(base, k) == capped(occurrences(win, k)) by {
        if cleared {
            assert(win =~= Seq::<Seq<char>>::empty());
        } else {
            assert(count_in(pre, k) == count_in(pre, k));
            if n > 0 {
                assert(counted_from(n, c) == w);
            } else {
                assert(counted_from(n, c) == 0);
            }
        }
    }
    assert(count_in(base, key) == capped(occurrences(win, key)));
    assert(nk.subrange(w, n as int + 1) =~= win.push(key));
    assert(nk.len() == n + 1);
    assert forall|k: Seq<char>| true implies #[trigger] count_in(post, k) == capped(
        occurrences(nk.subrange(counted_from(nk.len(), c) as int, nk.len() as int), k),
    ) by {
        assert(count_in(base, k) == capped(occurrences(win, k)));
        lemma_occurrences_push(win, key, k);
    }
}

} // verus!
