//! Background upkeep of memories: the JSON payload inside a model's reply,
//! and the grouping of memories by topic before they are merged.
use vstd::prelude::*;
use crate::core_types::{MemoryItem, MemoryType};
use crate::extraction::buffer::BufferTurn;
use crate::extraction::extractor::max_turn_id;
use crate::ordering::{distinct_u64, lemma_filter_push, shared_distinct_u64};
use crate::retrieval::coordinator::bigram_code;
use crate::text::{
    concat_chars, join_chars, join_with, views, keeps, lowercase_of, retain_class, to_lowercase, KeepClass,
    chars_of, ends_with_spec, ends_with_str, first_index, first_index_of, last_index,
    last_index_of, lemma_first_index_bounds, lemma_last_index_bounds, starts_with_spec,
    starts_with_str, string_of, sub_chars, trim, trim_spec, eq_str, digit_char,
};

verus! {

/// `s` with leading copies of `p` removed (`str::trim_start_matches`).
pub open spec fn strip_prefixes(s: Seq<char>, p: Seq<char>) -> Seq<char>
    decreases s.len(),
{
    if p.len() > 0 && starts_with_spec(s, p) {
        strip_prefixes(s.skip(p.len() as int), p)
    } else {
        s
    }
}

/// `s` with trailing copies of `p` removed (`str::trim_end_matches`).
pub open spec fn strip_suffixes(s: Seq<char>, p: Seq<char>) -> Seq<char>
    decreases s.len(),
{
    if p.len() > 0 && ends_with_spec(s, p) {
        strip_suffixes(s.take(s.len() - p.len()), p)
    } else {
        s
    }
}

/// The reply without surrounding blanks and code fences.
pub open spec fn unfenced(text: Seq<char>) -> Seq<char> {
    trim_spec(
        strip_suffixes(
            strip_prefixes(strip_prefixes(trim_spec(text), "```json"@), "```"@),
            "```"@,
        ),
    )
}

/// Which bracket opens the payload of `t`, and where: the earlier of the
/// first `{` and the first `[`.
pub open spec fn payload_open(t: Seq<char>) -> Option<(int, char)> {
    match (first_index_of(t, '{'), first_index_of(t, '[')) {
        (Some(o), Some(a)) => if o <= a {
            Some((o, '}'))
        } else {
            Some((a, ']'))
        },
        (Some(o), None) => Some((o, '}')),
        (None, Some(a)) => Some((a, ']')),
        (None, None) => None,
    }
}

/// The payload of `text`: from its first opening bracket to the last
/// matching closing bracket (to the end where there is none); the whole
/// unfenced text when there is no bracket.
pub open spec fn json_text_spec(text: Seq<char>) -> Seq<char> {
    let t = unfenced(text);
    match payload_open(t) {
        Some((a, close)) => match last_index_of(t, close) {
            Some(b) => t.subrange(a, b + 1),
            None => t.subrange(a, t.len() as int),
        },
        None => t,
    }
}

/// The last closing bracket comes before the opening one with text between
/// them: the slice would run backwards.
pub open spec fn json_text_backwards(text: Seq<char>) -> bool {
    let t = unfenced(text);
    match payload_open(t) {
        Some((a, close)) => match last_index_of(t, close) {
            Some(b) => b + 1 < a,
            None => false,
        },
        None => false,
    }
}

fn strip_prefix_copies(s: Vec<char>, p: &str) -> (r: Vec<char>)
    ensures
        r@ == strip_prefixes(s@, p@),
{
    let pc = chars_of(p);
    let mut cur = s;
    if pc.len() == 0 {
        return cur;
    }
    while starts_with_str(&cur, p)
        invariant
            pc@ == p@,
            pc@.len() > 0,
            strip_prefixes(cur@, p@) == strip_prefixes(s@, p@),
        decreases cur@.len(),
    {
        let ghost before = cur@;
        cur = sub_chars(&cur, pc.len(), cur.len());
        proof {
            assert(cur@ =~= before.skip(p@.len() as int));
        }
    }
    cur
}

fn strip_suffix_copies(s: Vec<char>, p: &str) -> (r: Vec<char>)
    ensures
        r@ == strip_suffixes(s@, p@),
{
    let pc = chars_of(p);
    let mut cur = s;
    if pc.len() == 0 {
        return cur;
    }
    while ends_with_str(&cur, p)
        invariant
            pc@ == p@,
            pc@.len() > 0,
            strip_suffixes(cur@, p@) == strip_suffixes(s@, p@),
        decreases cur@.len(),
    {
        let ghost before = cur@;
        cur = sub_chars(&cur, 0, cur.len() - pc.len());
        proof {
            assert(cur@ =~= before.take(before.len() - p@.len()));
        }
    }
    cur
}

/// The JSON payload of a reply: blanks and code fences removed, then the
/// text from the first opening bracket to the last matching closing one.
pub fn extract_json_from_text(text: &str) -> (r: String)
    requires
        !json_text_backwards(text@),
    ensures
        r@ == json_text_spec(text@),
{
    let t0 = trim(&chars_of(text));
    let t1 = strip_prefix_copies(t0, "```json");
    let t2 = strip_prefix_copies(t1, "```");
    let t3 = strip_suffix_copies(t2, "```");
    let t = trim(&t3);
    let ghost tv = t@;
    proof {
        lemma_first_index_bounds(tv, '{');
        lemma_first_index_bounds(tv, '[');
        lemma_last_index_bounds(tv, '}');
        lemma_last_index_bounds(tv, ']');
    }
    let open = match (first_index(&t, '{'), first_index(&t, '[')) {
        (Some(o), Some(a)) => if o <= a {
            Some((o, '}'))
        } else {
            Some((a, ']'))
        },
        (Some(o), None) => Some((o, '}')),
        (None, Some(a)) => Some((a, ']')),
        (None, None) => None,
    };
    match open {
        Some((a, close)) => {
            let end = match last_index(&t, close) {
                Some(b) => {
                    proof {
                        lemma_last_index_bounds(tv, close);
                        assert(tv == t@);
                        assert(last_index_of(tv, close) == Some(b as int));
                        assert(b < tv.len());
                    }
                    b + 1
                },
                None => t.len(),
            };
            string_of(&sub_chars(&t, a, end))
        },
        None => string_of(&t),
    }
}

} // verus!

verus! {

// ---------------------------------------------------------------------------
// Grouping memories by topic.

/// The letters of a memory's topic: alphanumeric characters and CJK
/// ideographs, lower-cased.
pub open spec fn topic_letters(text: Seq<char>) -> Seq<char> {
    lowercase_of(text.filter(|c: char| keeps(KeepClass::AlnumOrCjk, c)))
}

/// The codes of the bigrams of a memory's topic letters, in order.
pub open spec fn topic_bigrams(text: Seq<char>) -> Seq<u64> {
    let t = topic_letters(text);
    if t.len() < 2 {
        Seq::empty()
    } else {
        Seq::new((t.len() - 1) as nat, |i: int| bigram_code(t[i], t[i + 1]))
    }
}

/// The memories at `i` and `j` share enough topic bigrams: the bigrams they
/// share over the bigrams of the one with fewer is at least `num / den`
/// (a memory without bigrams shares nothing, 0 over 1).
pub open spec fn similar_topics(ms: Seq<MemoryItem>, i: int, j: int, num: u64, den: u64) -> bool {
    let a = topic_bigrams(ms[i].content@);
    let b = topic_bigrams(ms[j].content@);
    let sa = a.to_set();
    let sb = b.to_set();
    let parts: (nat, nat) = if a.len() == 0 || b.len() == 0 {
        (0, 1)
    } else {
        (sa.intersect(sb).len(), if sa.len() <= sb.len() {
            sa.len()
        } else {
            sb.len()
        })
    };
    parts.0 * den >= num * parts.1
}

/// The cluster started by memory `i`: `i` itself, then each later memory
/// below `j` that no earlier cluster took and that is similar to `i`.
pub open spec fn members_upto(ms: Seq<MemoryItem>, i: int, used: Set<int>, j: int, num: u64, den: u64) -> Seq<int>
    decreases j - i,
{
    if j <= i + 1 {
        seq![i]
    } else {
        let p = members_upto(ms, i, used, j - 1, num, den);
        if !used.contains(j - 1) && similar_topics(ms, i, j - 1, num, den) {
            p.push(j - 1)
        } else {
            p
        }
    }
}

/// The clusters (as indices) found among the first `n` memories, and the
/// memories taken: each memory not yet taken starts a cluster of itself and
/// the later similar memories not yet taken; clusters of one are dropped.
pub open spec fn cluster_scan(ms: Seq<MemoryItem>, num: u64, den: u64, n: nat) -> (Seq<Seq<int>>, Set<int>)
    decreases n,
{
    if n == 0 || n > ms.len() {
        (Seq::empty(), Set::empty())
    } else {
        let prev = cluster_scan(ms, num, den, (n - 1) as nat);
        let i = n - 1;
        if prev.1.contains(i) {
            prev
        } else {
            let m = members_upto(ms, i, prev.1, ms.len() as int, num, den);
            (if m.len() >= 2 {
                prev.0.push(m)
            } else {
                prev.0
            }, prev.1.union(m.to_set()))
        }
    }
}

/// The memories of clusters given by indices.
pub open spec fn clusters_of(ms: Seq<MemoryItem>, cs: Seq<Seq<int>>) -> Seq<Seq<MemoryItem>> {
    cs.map_values(|c: Seq<int>| c.map_values(|j: int| ms[j]))
}

fn topic_bigrams_exec(text: &str) -> (r: Vec<u64>)
    ensures
        r@ == topic_bigrams(text@),
{
    let t = to_lowercase(&retain_class(&chars_of(text), KeepClass::AlnumOrCjk));
    let mut r: Vec<u64> = Vec::new();
    if t.len() < 2 {
        proof {
            assert(r@ =~= topic_bigrams(text@));
        }
        return r;
    }
    let mut i: usize = 0;
    while i + 1 < t.len()
        invariant
            t@ == topic_letters(text@),
            t@.len() >= 2,
            i + 1 <= t@.len(),
            r@.len() == i,
            forall|k: int| 0 <= k < i ==> r@[k] == bigram_code(t@[k], t@[k + 1]),
        decreases t.len() - i,
    {
        let code: u64 = (t[i] as u32) as u64 * 0x110000 + (t[i + 1] as u32) as u64;
        r.push(code);
        i = i + 1;
    }
    proof {
        assert(r@ =~= topic_bigrams(text@));
    }
    r
}

fn similar_exec(toks: &Vec<Vec<u64>>, i: usize, j: usize, num: u64, den: u64, Ghost(ms): Ghost<Seq<MemoryItem>>) -> (r: bool)
    requires
        toks@.len() == ms.len(),
        i < ms.len(),
        j < ms.len(),
        forall|k: int| 0 <= k < ms.len() ==> #[trigger] toks@[k]@ == topic_bigrams(ms[k].content@),
    ensures
        r == similar_topics(ms, i as int, j as int, num, den),
{
    let a = &toks[i];
    let b = &toks[j];
    let (n, d): (usize, usize) = if a.len() == 0 || b.len() == 0 {
        (0, 1)
    } else {
        let shared = shared_distinct_u64(a, b);
        let da = distinct_u64(a);
        let db = distinct_u64(b);
        (shared, if da.len() <= db.len() {
            da.len()
        } else {
            db.len()
        })
    };
    assert((n as u128) * (den as u128) <= u128::MAX) by (nonlinear_arith)
        requires
            n <= u64::MAX,
            den <= u64::MAX,
    ;
    assert((num as u128) * (d as u128) <= u128::MAX) by (nonlinear_arith)
        requires
            d <= u64::MAX,
            num <= u64::MAX,
    ;
    (n as u128) * (den as u128) >= (num as u128) * (d as u128)
}

/// Groups memories by topic: a memory not yet grouped gathers the later
/// ungrouped memories whose topics are at least `min_num / min_den`
/// similar to its own; groups of one are dropped.
pub fn cluster_by_topic(memories: &[MemoryItem], min_num: u64, min_den: u64) -> (r: Vec<Vec<MemoryItem>>)
    ensures
        r@.map_values(|c: Vec<MemoryItem>| c@) == clusters_of(
            memories@,
            cluster_scan(memories@, min_num, min_den, memories@.len()).0,
        ),
{
    let ghost ms = memories@;
    let n = memories.len();
    let mut toks: Vec<Vec<u64>> = Vec::new();
    let mut k: usize = 0;
    while k < n
        invariant
            k <= n,
            n == ms.len(),
            ms == memories@,
            toks@.len() == k,
            forall|t: int| 0 <= t < k ==> #[trigger] toks@[t]@ == topic_bigrams(ms[t].content@),
        decreases n - k,
    {
        toks.push(topic_bigrams_exec(memories[k].content.as_str()));
        k = k + 1;
    }
    let mut used: Vec<bool> = Vec::new();
    let mut z: usize = 0;
    while z < n
        invariant
            z <= n,
            used@.len() == z,
            forall|t: int| 0 <= t < z ==> !#[trigger] used@[t],
        decreases n - z,
    {
        used.push(false);
        z = z + 1;
    }
    let mut clusters: Vec<Vec<MemoryItem>> = Vec::new();
    let ghost mut cs: Seq<Seq<int>> = Seq::empty();
    let mut i: usize = 0;
    while i < n
        invariant
            i <= n,
            n == ms.len(),
            ms == memories@,
            toks@.len() == n,
            forall|t: int| 0 <= t < n ==> #[trigger] toks@[t]@ == topic_bigrams(ms[t].content@),
            used@.len() == n,
            cluster_scan(ms, min_num, min_den, i as nat).0 == cs,
            forall|t: int| 0 <= t < n ==> #[trigger] used@[t] == cluster_scan(ms, min_num, min_den, i as nat).1.contains(t),
            clusters@.map_values(|c: Vec<MemoryItem>| c@) == clusters_of(ms, cs),
        decreases n - i,
    {
        let ghost prev = cluster_scan(ms, min_num, min_den, i as nat);
        if used[i] {
            proof {
                assert(prev.1.contains(i as int));
            }
            i = i + 1;
            continue;
        }
        let ghost before = used@;
        let mut members: Vec<usize> = Vec::new();
        members.push(i);
        used.set(i, true);
        let mut j: usize = i + 1;
        proof {
            assert(members_upto(ms, i as int, prev.1, j as int, min_num, min_den) == seq![i as int]);
            assert(members@.map_values(|x: usize| x as int) =~= members_upto(ms, i as int, prev.1, j as int, min_num, min_den));
            assert forall|t: int| 0 <= t < n implies #[trigger] used@[t] == (before[t] || members_upto(ms, i as int, prev.1, j as int, min_num, min_den).contains(t)) by {
                if t == i {
                    assert(seq![i as int][0] == i as int);
                }
            }
        }
        while j < n
            invariant
                i < j <= n,
                n == ms.len(),
                toks@.len() == n,
                forall|t: int| 0 <= t < n ==> #[trigger] toks@[t]@ == topic_bigrams(ms[t].content@),
                used@.len() == n,
                before.len() == n,
                forall|t: int| 0 <= t < n ==> #[trigger] before[t] == prev.1.contains(t),
                members@.map_values(|x: usize| x as int) == members_upto(ms, i as int, prev.1, j as int, min_num, min_den),
                forall|t: int| 0 <= t < n ==> #[trigger] used@[t] == (before[t] || members_upto(ms, i as int, prev.1, j as int, min_num, min_den).contains(t)),
                forall|t: int| 0 <= t < members@.len() ==> #[trigger] members@[t] < j && members@[t] < n,
            decreases n - j,
        {
            let ghost m_before = members_upto(ms, i as int, prev.1, j as int, min_num, min_den);
            proof {
                if m_before.contains(j as int) {
                    let t = choose|t: int| 0 <= t < m_before.len() && m_before[t] == j as int;
                    assert(members@.map_values(|x: usize| x as int)[t] == members@[t] as int);
                }
                assert(used@[j as int] == before[j as int]);
            }
            if !used[j] && similar_exec(&toks, i, j, min_num, min_den, Ghost(ms)) {
                let ghost mm = members@;
                members.push(j);
                used.set(j, true);
                proof {
                    assert(members@.map_values(|x: usize| x as int) =~= mm.map_values(|x: usize| x as int).push(j as int));
                    let m_after = members_upto(ms, i as int, prev.1, j + 1, min_num, min_den);
                    assert(m_after == m_before.push(j as int));
                    assert forall|t: int| 0 <= t < n implies #[trigger] used@[t] == (before[t] || m_after.contains(t)) by {
                        if t == j {
                            assert(m_after[m_after.len() - 1] == j as int);
                        } else if m_after.contains(t) {
                            let q = choose|q: int| 0 <= q < m_after.len() && m_after[q] == t;
                            assert(m_before[q] == t);
                        } else if m_before.contains(t) {
                            let q = choose|q: int| 0 <= q < m_before.len() && m_before[q] == t;
                            assert(m_after[q] == t);
                        }
                    }
                }
            } else {
                proof {
                    let m_after = members_upto(ms, i as int, prev.1, j + 1, min_num, min_den);
                    assert(m_after == m_before);
                }
            }
            j = j + 1;
        }
        let ghost m = members_upto(ms, i as int, prev.1, n as int, min_num, min_den);
        proof {
            assert(!prev.1.contains(i as int));
            assert forall|t: int| 0 <= t < n implies #[trigger] used@[t] == cluster_scan(ms, min_num, min_den, (i + 1) as nat).1.contains(t) by {
                assert(prev.1.union(m.to_set()).contains(t) == (prev.1.contains(t) || m.contains(t)));
            }
        }
        if members.len() >= 2 {
            let mut cluster: Vec<MemoryItem> = Vec::new();
            let mut q: usize = 0;
            while q < members.len()
                invariant
                    q <= members@.len(),
                    n == ms.len(),
                    ms == memories@,
                    forall|t: int| 0 <= t < members@.len() ==> #[trigger] members@[t] < n,
                    cluster@ == members@.take(q as int).map_values(|x: usize| ms[x as int]),
                decreases members.len() - q,
            {
                proof {
                    assert(members@.take(q + 1).map_values(|x: usize| ms[x as int]) =~= members@.take(q as int).map_values(
                        |x: usize| ms[x as int],
                    ).push(ms[members@[q as int] as int]));
                }
                cluster.push(memories[members[q]].duplicate());
                q = q + 1;
            }
            let ghost cl = cluster@;
            let ghost old_clusters = clusters@;
            clusters.push(cluster);
            proof {
                assert(members@.take(members@.len() as int) =~= members@);
                assert(members@.map_values(|x: usize| x as int) == m);
                assert forall|t: int| 0 <= t < cl.len() implies cl[t] == m.map_values(|x: int| ms[x])[t] by {
                    assert(m[t] == members@.map_values(|x: usize| x as int)[t]);
                }
                assert(cl =~= m.map_values(|x: int| ms[x]));
                let ghost old_cs = cs;
                cs = cs.push(m);
                assert(clusters@.len() == old_clusters.len() + 1);
                assert(clusters@[old_clusters.len() as int]@ == cl);
                assert forall|t: int| 0 <= t < old_clusters.len() implies clusters@[t] == old_clusters[t] by {}
                assert(clusters@.map_values(|c: Vec<MemoryItem>| c@) =~= old_clusters.map_values(
                    |c: Vec<MemoryItem>| c@,
                ).push(cl));
                assert(clusters_of(ms, cs) =~= clusters_of(ms, old_cs).push(m.map_values(|x: int| ms[x])));
            }
        }
        i = i + 1;
    }
    clusters
}

} // verus!

verus! {

proof fn lemma_members_fresh(ms: Seq<MemoryItem>, i: int, used: Set<int>, j: int, num: u64, den: u64)
    ensures
        members_upto(ms, i, used, j, num, den).len() >= 1,
        members_upto(ms, i, used, j, num, den)[0] == i,
        forall|t: int|
            0 <= t < members_upto(ms, i, used, j, num, den).len() ==> (#[trigger] members_upto(
                ms,
                i,
                used,
                j,
                num,
                den,
            )[t] == i || !used.contains(members_upto(ms, i, used, j, num, den)[t])),
    decreases j - i,
{
    if j > i + 1 {
        lemma_members_fresh(ms, i, used, j - 1, num, den);
    }
}

/// Every group of memories holds at least two, every memory in a group was
/// taken, and no memory is in two groups.
pub proof fn law_clusters_are_disjoint_pairs_or_more(ms: Seq<MemoryItem>, num: u64, den: u64, n: nat)
    ensures
        forall|a: int|
            0 <= a < cluster_scan(ms, num, den, n).0.len() ==> #[trigger] cluster_scan(ms, num, den, n).0[a].len()
                >= 2,
        forall|a: int, t: int|
            0 <= a < cluster_scan(ms, num, den, n).0.len() && 0 <= t < cluster_scan(ms, num, den, n).0[a].len()
                ==> cluster_scan(ms, num, den, n).1.contains(#[trigger] cluster_scan(ms, num, den, n).0[a][t]),
        forall|a: int, b: int, x: int, y: int|
            0 <= a < b < cluster_scan(ms, num, den, n).0.len() && 0 <= x < cluster_scan(ms, num, den, n).0[a].len()
                && 0 <= y < cluster_scan(ms, num, den, n).0[b].len() ==> #[trigger] cluster_scan(ms, num, den, n).0[a][x]
                != #[trigger] cluster_scan(ms, num, den, n).0[b][y],
    decreases n,
{
    if n > 0 && n <= ms.len() {
        law_clusters_are_disjoint_pairs_or_more(ms, num, den, (n - 1) as nat);
        let prev = cluster_scan(ms, num, den, (n - 1) as nat);
        let i = n - 1;
        if !prev.1.contains(i) {
            let m = members_upto(ms, i, prev.1, ms.len() as int, num, den);
            lemma_members_fresh(ms, i, prev.1, ms.len() as int, num, den);
            let cur = cluster_scan(ms, num, den, n);
            assert forall|a: int, t: int| 0 <= a < cur.0.len() && 0 <= t < cur.0[a].len() implies cur.1.contains(
                #[trigger] cur.0[a][t],
            ) by {
                if a < prev.0.len() {
                    assert(cur.0[a] == prev.0[a]);
                } else {
                    assert(cur.0[a] == m);
                    assert(m.to_set().contains(m[t]));
                }
            }
            assert forall|a: int, b: int, x: int, y: int|
                0 <= a < b < cur.0.len() && 0 <= x < cur.0[a].len() && 0 <= y < cur.0[b].len() implies #[trigger] cur.0[a][x]
                != #[trigger] cur.0[b][y] by {
                if b < prev.0.len() {
                    assert(cur.0[a] == prev.0[a] && cur.0[b] == prev.0[b]);
                } else {
                    assert(cur.0[a] == prev.0[a]);
                    assert(cur.0[b] == m);
                    assert(prev.1.contains(prev.0[a][x]));
                }
            }
        }
    }
}

} // verus!

verus! {

/// What chrono writes for `%Y-%m-%d` of the UTC day holding the instant
/// `ms` (Unix milliseconds); nothing where the instant lies outside
/// chrono's range.
pub uninterp spec fn utc_date_of(ms: i64) -> Option<Seq<char>>;

/// The date shown for an instant: its UTC day, or nothing outside chrono's range.
pub open spec fn date_text(ms: i64) -> Seq<char> {
    match utc_date_of(ms) {
        Some(d) => d,
        None => Seq::empty(),
    }
}

/// Year, month and day of the proleptic Gregorian calendar for a count of
/// days since 1970-01-01 (the civil-from-days conversion; `days >= 0`).
pub open spec fn civil_from_days(days: int) -> (int, int, int) {
    let z = days + 719468;
    let era = z / 146097;
    let doe = z - era * 146097;
    let yoe = (doe - doe / 1460 + doe / 36524 - doe / 146096) / 365;
    let doy = doe - (365 * yoe + yoe / 4 - yoe / 100);
    let mp = (5 * doy + 2) / 153;
    let d = doy - (153 * mp + 2) / 5 + 1;
    let m = if mp < 10 {
        mp + 3
    } else {
        mp - 9
    };
    let y = yoe + era * 400 + if m <= 2 {
        1int
    } else {
        0int
    };
    (y, m, d)
}

/// `n` (below 100) in two decimal digits.
pub open spec fn two_digits(n: int) -> Seq<char> {
    seq![digit_char((n / 10) as nat), digit_char((n % 10) as nat)]
}

/// `n` (below 10000) in four decimal digits.
pub open spec fn four_digits(n: int) -> Seq<char> {
    seq![
        digit_char((n / 1000) as nat),
        digit_char((n / 100 % 10) as nat),
        digit_char((n / 10 % 10) as nat),
        digit_char((n % 10) as nat),
    ]
}

/// `YYYY-MM-DD` of the day `days` after 1970-01-01.
pub open spec fn civil_date_text(days: int) -> Seq<char> {
    let (y, m, d) = civil_from_days(days);
    four_digits(y) + "-"@ + two_digits(m) + "-"@ + two_digits(d)
}

/// The first instant (Unix milliseconds) of the year 10000.
pub const YEAR_10000_MS: i64 = 253_402_300_800_000;

/// Calls `chrono::DateTime::from_timestamp_millis` and formats the result
/// with `%Y-%m-%d`. The contract names the result `utc_date_of` of `ms` and
/// states it for instants from 1970 up to the end of the year 9999: the
/// Gregorian date of the UTC day holding the instant, with a four-digit
/// year and two-digit month and day. Nothing is stated of other instants.
#[verifier::external_body]
fn utc_date(ms: i64) -> (r: Option<String>)
    ensures
        match r {
            Some(s) => utc_date_of(ms) == Some(s@),
            None => utc_date_of(ms) is None,
        },
        0 <= ms < YEAR_10000_MS ==> r.is_some() && r.unwrap()@ == civil_date_text(ms / 86_400_000),
{
    match chrono::DateTime::from_timestamp_millis(ms) {
        Some(d) => Some(d.format("%Y-%m-%d").to_string()),
        None => None,
    }
}

/// Calls `chrono::Utc::now().timestamp_millis()`: the current time in Unix
/// milliseconds, read from the clock, so nothing is claimed of it.
#[verifier::external_body]
fn now_millis() -> i64 {
    chrono::Utc::now().timestamp_millis()
}

/// A memory created at most 168 whole hours before `now` (both in Unix
/// milliseconds; whole hours counted towards zero, as chrono counts them),
/// or later than `now`.
pub open spec fn created_recently(m: MemoryItem, now: i64) -> bool {
    now - m.created_at < 169 * 3_600_000
}

/// The memories created recently, in their order.
pub open spec fn recent_memories(ms: Seq<MemoryItem>, now: i64) -> Seq<MemoryItem> {
    ms.filter(|m: MemoryItem| created_recently(m, now))
}

/// The line of a memory in the insight prompt: its date, then its content.
pub open spec fn insight_line(m: MemoryItem) -> Seq<char> {
    "- ["@ + date_text(m.created_at) + "] "@ + m.content@
}

/// The lines of the insight prompt: the last twenty of `recent`, latest first.
pub open spec fn insight_lines(recent: Seq<MemoryItem>) -> Seq<Seq<char>> {
    let k = if recent.len() < 20 { recent.len() as int } else { 20 };
    Seq::new(k as nat, |i: int| insight_line(recent[recent.len() - 1 - i]))
}

/// The prompt that asks for an insight about a user at `now`: nothing with
/// fewer than three memories, or fewer than three created recently;
/// otherwise a heading and the lines of the latest recent memories.
pub open spec fn insight_prompt_spec(ms: Seq<MemoryItem>, now: i64) -> Option<Seq<char>> {
    if ms.len() < 3 || recent_memories(ms, now).len() < 3 {
        None
    } else {
        Some("【近期记忆】\n"@ + join_with(insight_lines(recent_memories(ms, now)), "\n"@))
    }
}

/// The prompt that asks for an insight about the user of `memories` at
/// `now_ms` (see `insight_prompt_spec`).
pub fn insight_prompt_at(memories: &[MemoryItem], now_ms: i64) -> (r: Option<String>)
    ensures
        match r {
            Some(s) => insight_prompt_spec(memories@, now_ms) == Some(s@),
            None => insight_prompt_spec(memories@, now_ms) is None,
        },
{
    let ghost ms = memories@;
    let ghost f = |m: MemoryItem| created_recently(m, now_ms);
    if memories.len() < 3 {
        return None;
    }
    let mut recent: Vec<&MemoryItem> = Vec::new();
    let mut i: usize = 0;
    proof {
        assert(ms.take(0) =~= Seq::<MemoryItem>::empty());
        assert(ms.take(0).filter(f) =~= Seq::<MemoryItem>::empty()) by {
            reveal_with_fuel(Seq::filter, 1);
        }
    }
    while i < memories.len()
        invariant
            i <= ms.len(),
            ms == memories@,
            f == (|m: MemoryItem| created_recently(m, now_ms)),
            recent@.map_values(|m: &MemoryItem| *m) == ms.take(i as int).filter(f),
        decreases memories.len() - i,
    {
        proof {
            assert(ms.take(i + 1) =~= ms.take(i as int).push(ms[i as int]));
            lemma_filter_push(ms.take(i as int), ms[i as int], f);
        }
        let m = &memories[i];
        let diff: i128 = (now_ms as i128) - (m.created_at as i128);
        let ghost before = recent@;
        if diff < 169 * 3_600_000 {
            recent.push(m);
            proof {
                assert(recent@.map_values(|m: &MemoryItem| *m) =~= before.map_values(|m: &MemoryItem| *m).push(*m));
            }
        }
        proof {
            assert(recent@.map_values(|m: &MemoryItem| *m) =~= ms.take(i + 1).filter(f));
        }
        i = i + 1;
    }
    proof {
        assert(ms.take(ms.len() as int) =~= ms);
    }
    let ghost rv = recent_memories(ms, now_ms);
    let n = recent.len();
    if n < 3 {
        return None;
    }
    let k: usize = if n < 20 {
        n
    } else {
        20
    };
    let mut lines: Vec<Vec<char>> = Vec::new();
    let mut j: usize = 0;
    while j < k
        invariant
            j <= k,
            k <= n,
            n == recent@.len(),
            n == rv.len(),
            k == (if rv.len() < 20 { rv.len() as int } else { 20 }),
            forall|t: int| 0 <= t < n ==> *recent@[t] == #[trigger] rv[t],
            views(lines@) == insight_lines(rv).take(j as int),
        decreases k - j,
    {
        let m = recent[n - 1 - j];
        let date = match utc_date(m.created_at) {
            Some(d) => chars_of(d.as_str()),
            None => Vec::new(),
        };
        let line = concat_chars(
            &concat_chars(&concat_chars(&chars_of("- ["), &date), &chars_of("] ")),
            &chars_of(m.content.as_str()),
        );
        proof {
            assert(*m == rv[n - 1 - j]);
            assert(line@ == insight_line(rv[n - 1 - j]));
        }
        let ghost before = lines@;
        lines.push(line);
        proof {
            assert(views(lines@) =~= views(before).push(line@));
            assert(insight_lines(rv).take(j + 1) =~= insight_lines(rv).take(j as int).push(insight_lines(rv)[j as int]));
        }
        j = j + 1;
    }
    proof {
        assert(insight_lines(rv).take(k as int) =~= insight_lines(rv));
    }
    let body = join_chars(&lines, "\n");
    Some(string_of(&concat_chars(&chars_of("【近期记忆】\n"), &body)))
}

/// The prompt that asks for an insight about the user of `memories` now
/// (see `insight_prompt_at`); the time is read from the clock.
pub fn insight_prompt(memories: &[MemoryItem]) -> (r: Option<String>)
    ensures
        exists|now: i64|
            match r {
                Some(s) => insight_prompt_spec(memories@, now) == Some(s@),
                None => #[trigger] insight_prompt_spec(memories@, now) is None,
            },
{
    let now = now_millis();
    let r = insight_prompt_at(memories, now);
    assert(match r {
        Some(s) => insight_prompt_spec(memories@, now) == Some(s@),
        None => insight_prompt_spec(memories@, now) is None,
    });
    r
}

} // verus!

verus! {

/// Whether the payload slice of `text` would run backwards: its last
/// closing bracket comes before the opening one, with text between them.
pub fn json_text_runs_backwards(text: &str) -> (r: bool)
    ensures
        r == json_text_backwards(text@),
{
    let t0 = trim(&chars_of(text));
    let t1 = strip_prefix_copies(t0, "```json");
    let t2 = strip_prefix_copies(t1, "```");
    let t3 = strip_suffix_copies(t2, "```");
    let t = trim(&t3);
    let ghost tv = t@;
    proof {
        lemma_first_index_bounds(tv, '{');
        lemma_first_index_bounds(tv, '[');
        lemma_last_index_bounds(tv, '}');
        lemma_last_index_bounds(tv, ']');
    }
    let open = match (first_index(&t, '{'), first_index(&t, '[')) {
        (Some(o), Some(a)) => if o <= a {
            Some((o, '}'))
        } else {
            Some((a, ']'))
        },
        (Some(o), None) => Some((o, '}')),
        (None, Some(a)) => Some((a, ']')),
        (None, None) => None,
    };
    match open {
        Some((a, close)) => match last_index(&t, close) {
            Some(b) => b < a && a - b > 1,
            None => false,
        },
        None => false,
    }
}

} // verus!

verus! {

/// The insight a digestion reply gives: its content trimmed, where the
/// reply says it has an insight, gives content that is not blank, and its
/// confidence key reaches `min_key` (confidences are compared by order keys).
pub open spec fn insight_spec(has_insight: Option<bool>, content: Option<String>, confidence_key: u64, min_key: u64) -> Option<Seq<char>> {
    match (has_insight, content) {
        (Some(true), Some(c)) => if trim_spec(c@).len() > 0 && confidence_key >= min_key {
            Some(trim_spec(c@))
        } else {
            None
        },
        _ => None,
    }
}

/// The insight of a digestion reply's fields (see `insight_spec`).
pub fn insight_from(has_insight: Option<bool>, content: Option<String>, confidence_key: u64, min_key: u64) -> (r: Option<String>)
    ensures
        match r {
            Some(s) => insight_spec(has_insight, content, confidence_key, min_key) == Some(s@),
            None => insight_spec(has_insight, content, confidence_key, min_key) is None,
        },
{
    match (has_insight, content) {
        (Some(true), Some(c)) => {
            let t = trim(&chars_of(c.as_str()));
            if t.len() > 0 && confidence_key >= min_key {
                Some(string_of(&t))
            } else {
                None
            }
        },
        _ => None,
    }
}

} // verus!

verus! {

// ---------------------------------------------------------------------------
// Background extraction: the conversation shown to the model, the mark, and
// the memories read from its reply.

/// The lines of the pending turns: each turn's user message and the
/// assistant's reply, labelled.
pub open spec fn conversation_lines(turns: Seq<BufferTurn>) -> Seq<Seq<char>>
    decreases turns.len(),
{
    if turns.len() == 0 {
        Seq::empty()
    } else {
        conversation_lines(turns.drop_last()) + seq![
            "[用户] "@ + turns.last().user@,
            "[助手] "@ + turns.last().assistant@,
        ]
    }
}

/// The conversation a background extraction shows the model: the lines of
/// the pending turns joined by line breaks.
pub fn extraction_conversation(turns: &[BufferTurn]) -> (r: String)
    ensures
        r@ == join_with(conversation_lines(turns@), "\n"@),
{
    let mut lines: Vec<Vec<char>> = Vec::new();
    let mut i: usize = 0;
    proof {
        assert(turns@.take(0) =~= Seq::<BufferTurn>::empty());
        assert(views(lines@) =~= conversation_lines(turns@.take(0)));
    }
    while i < turns.len()
        invariant
            i <= turns@.len(),
            views(lines@) == conversation_lines(turns@.take(i as int)),
        decreases turns.len() - i,
    {
        let u = concat_chars(&chars_of("[用户] "), &chars_of(turns[i].user.as_str()));
        let a = concat_chars(&chars_of("[助手] "), &chars_of(turns[i].assistant.as_str()));
        let ghost before = views(lines@);
        lines.push(u);
        lines.push(a);
        proof {
            assert(turns@.take(i + 1).drop_last() =~= turns@.take(i as int));
            assert(turns@.take(i + 1).last() == turns@[i as int]);
            assert(views(lines@) =~= before + seq![u@, a@]);
        }
        i = i + 1;
    }
    proof {
        assert(turns@.take(turns@.len() as int) =~= turns@);
    }
    string_of(&join_chars(&lines, "\n"))
}

/// Where a background extraction marks the session before it calls the
/// model: up to the highest pending turn, unless the round was forced or
/// nothing is pending.
pub fn background_extraction_mark(pending: &[BufferTurn], force: bool) -> (r: Option<usize>)
    ensures
        r == (if force || pending@.len() == 0 {
            None
        } else {
            Some(max_turn_id(pending@))
        }),
{
    if force || pending.len() == 0 {
        return None;
    }
    let mut latest: usize = 0;
    let mut i: usize = 0;
    proof {
        assert(pending@.take(0) =~= Seq::<BufferTurn>::empty());
    }
    while i < pending.len()
        invariant
            i <= pending@.len(),
            latest == max_turn_id(pending@.take(i as int)),
        decreases pending.len() - i,
    {
        proof {
            assert(pending@.take(i + 1).drop_last() =~= pending@.take(i as int));
            assert(pending@.take(i + 1).last() == pending@[i as int]);
        }
        if pending[i].turn_id > latest {
            latest = pending[i].turn_id;
        }
        i = i + 1;
    }
    proof {
        assert(pending@.take(pending@.len() as int) =~= pending@);
    }
    Some(latest)
}

/// A memory as the extraction reply lists it, read into plain values: its
/// text and type where given, and the order key of its confidence (the
/// caller gives the key of 0.5 where the reply has none).
pub struct ListedMemory {
    pub content: Option<String>,
    pub memory_type: Option<String>,
    pub confidence_key: u64,
}

/// A memory kept from the reply: its text and type.
pub struct ReadMemory {
    pub content: String,
    pub memory_type: MemoryType,
}

/// The type a listed memory names; a fact where it names none or another.
pub open spec fn listed_type_spec(name: Option<Seq<char>>) -> MemoryType {
    match name {
        Some(n) => if n == "preference"@ {
            MemoryType::Preference
        } else if n == "event"@ {
            MemoryType::Event
        } else if n == "opinion"@ {
            MemoryType::Opinion
        } else if n == "relationship"@ {
            MemoryType::Relationship
        } else {
            MemoryType::Fact
        },
        None => MemoryType::Fact,
    }
}

/// The type a listed memory names.
pub fn listed_memory_type(name: Option<&str>) -> (r: MemoryType)
    ensures
        r == listed_type_spec(
            match name {
                Some(n) => Some(n@),
                None => None,
            },
        ),
{
    match name {
        Some(n) => {
            let c = chars_of(n);
            if eq_str(&c, "preference") {
                MemoryType::Preference
            } else if eq_str(&c, "event") {
                MemoryType::Event
            } else if eq_str(&c, "opinion") {
                MemoryType::Opinion
            } else if eq_str(&c, "relationship") {
                MemoryType::Relationship
            } else {
                MemoryType::Fact
            }
        },
        None => MemoryType::Fact,
    }
}

/// A listed memory is kept when it has text and its confidence is not
/// below the floor.
pub open spec fn listed_kept(m: ListedMemory, floor_key: u64) -> bool {
    m.content is Some && m.confidence_key >= floor_key
}

/// The listed memories that are kept, in order.
pub open spec fn kept_listed(ms: Seq<ListedMemory>, floor_key: u64) -> Seq<ListedMemory>
    decreases ms.len(),
{
    if ms.len() == 0 {
        Seq::empty()
    } else if listed_kept(ms.last(), floor_key) {
        kept_listed(ms.drop_last(), floor_key).push(ms.last())
    } else {
        kept_listed(ms.drop_last(), floor_key)
    }
}

/// `r` is what the listed memory `m` becomes.
pub open spec fn read_from(r: ReadMemory, m: ListedMemory) -> bool {
    &&& m.content matches Some(c) && r.content@ == c@
    &&& r.memory_type == listed_type_spec(
        match m.memory_type {
            Some(n) => Some(n@),
            None => None,
        },
    )
}

/// The memories an extraction reply lists, read: those with text whose
/// confidence key is at least `floor_key` (the key of 0.3), in order, each
/// with its text and type.
pub fn read_listed_memories(listed: &[ListedMemory], floor_key: u64) -> (r: Vec<ReadMemory>)
    ensures
        r@.len() == kept_listed(listed@, floor_key).len(),
        forall|i: int| 0 <= i < r@.len() ==> #[trigger] read_from(r@[i], kept_listed(listed@, floor_key)[i]),
{
    let mut r: Vec<ReadMemory> = Vec::new();
    let mut i: usize = 0;
    proof {
        assert(listed@.take(0) =~= Seq::<ListedMemory>::empty());
    }
    while i < listed.len()
        invariant
            i <= listed@.len(),
            r@.len() == kept_listed(listed@.take(i as int), floor_key).len(),
            forall|k: int|
                0 <= k < r@.len() ==> #[trigger] read_from(r@[k], kept_listed(listed@.take(i as int), floor_key)[k]),
        decreases listed.len() - i,
    {
        let m = &listed[i];
        let ghost prev = kept_listed(listed@.take(i as int), floor_key);
        proof {
            assert(listed@.take(i + 1).drop_last() =~= listed@.take(i as int));
            assert(listed@.take(i + 1).last() == listed@[i as int]);
        }
        match &m.content {
            Some(c) => {
                if m.confidence_key >= floor_key {
                    let kind = match &m.memory_type {
                        Some(n) => listed_memory_type(Some(n.as_str())),
                        None => listed_memory_type(None),
                    };
                    r.push(ReadMemory { content: c.clone(), memory_type: kind });
                    proof {
                        let now = kept_listed(listed@.take(i + 1), floor_key);
                        assert(now == prev.push(listed@[i as int]));
                        assert forall|k: int| 0 <= k < r@.len() implies #[trigger] read_from(r@[k], now[k]) by {
                            if k < prev.len() {
                                assert(now[k] == prev[k]);
                            }
                        }
                    }
                }
            },
            None => {},
        }
        i = i + 1;
    }
    proof {
        assert(listed@.take(listed@.len() as int) =~= listed@);
    }
    r
}

} // verus!
