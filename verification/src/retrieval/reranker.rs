//! Re-ranking of retrieved candidates.
use vstd::prelude::*;
use crate::core_types::{memory_type_spec, MemoryType};
use crate::retrieval::two_stage_retriever::RetrievalContext;
use crate::text::{
    byte_len, chars_of, concat_chars, cuts_a_char, decimal, decimal_i64, decimal_spec, join_chars,
    join_with, join_words, signed_decimal_spec, string_of, take_bytes, take_bytes_exec, trim_end,
    trim_end_spec, utf8_len, views, words_joined,
};

verus! {

/// A local re-ranker that keeps the candidates' own order.
pub struct CrossEncoderReranker;

impl CrossEncoderReranker {
    /// The re-ranker.
    pub fn new() -> (r: Self) {
        CrossEncoderReranker
    }

    /// The first `top_k` candidates, in their order.
    pub fn rerank<T>(&self, candidates: Vec<T>, top_k: usize) -> (r: Vec<T>)
        ensures
            r@ == candidates@.take(if top_k < candidates@.len() {
                top_k as int
            } else {
                candidates@.len() as int
            }),
    {
        let mut candidates = candidates;
        if top_k < candidates.len() {
            candidates.truncate(top_k);
        }
        candidates
    }
}

impl Default for CrossEncoderReranker {
    fn default() -> (r: Self) {
        CrossEncoderReranker::new()
    }
}

/// The name of a memory type as shown to the re-ranking model.
pub fn memory_type_name(memory_type: &MemoryType) -> (r: &'static str)
    ensures
        r@ == memory_type_spec(*memory_type),
{
    match memory_type {
        MemoryType::Fact => "fact",
        MemoryType::Preference => "preference",
        MemoryType::Event => "event",
        MemoryType::Opinion => "opinion",
        MemoryType::Relationship => "relationship",
    }
}

} // verus!

verus! {

/// Where a candidate's text is cut when it is too long: three bytes before
/// the limit, but at least one byte in.
pub open spec fn candidate_cutoff(max_chars: nat) -> nat {
    if max_chars > 3 {
        (max_chars - 3) as nat
    } else {
        1
    }
}

/// A candidate's text as shown to the re-ranking model: its words joined by
/// single spaces; when that is longer than `max_chars` bytes, its first
/// bytes up to the cutoff, trimmed at the end, and "...".
pub open spec fn candidate_content_spec(content: Seq<char>, max_chars: nat) -> Seq<char> {
    let n = words_joined(content);
    if utf8_len(n) <= max_chars {
        n
    } else {
        trim_end_spec(take_bytes(n, candidate_cutoff(max_chars))) + "..."@
    }
}

/// The cutoff of a candidate's text that is too long falls inside a
/// character: cutting there would split it.
pub open spec fn candidate_cut_splits_char(content: Seq<char>, max_chars: nat) -> bool {
    let n = words_joined(content);
    utf8_len(n) > max_chars && cuts_a_char(n, candidate_cutoff(max_chars))
}

/// A candidate's text as shown to the re-ranking model (see
/// `candidate_content_spec`); texts whose cutoff would split a character
/// are outside the domain.
pub fn truncate_candidate_content(content: &str, max_chars: usize) -> (r: String)
    requires
        !candidate_cut_splits_char(content@, max_chars as nat),
    ensures
        r@ == candidate_content_spec(content@, max_chars as nat),
{
    let n = join_words(&chars_of(content));
    let s = string_of(&n);
    if byte_len(s.as_str()) <= max_chars {
        return s;
    }
    let cut = if max_chars > 3 {
        max_chars - 3
    } else {
        1
    };
    let (head, _) = take_bytes_exec(&n, cut);
    string_of(&concat_chars(&trim_end(&head), &chars_of("...")))
}

/// The head of the re-ranking prompt: the query, how many to keep, the
/// request's context, and the heading of the candidates.
pub open spec fn rerank_header(query: Seq<char>, top_k: nat, context: RetrievalContext) -> Seq<Seq<char>> {
    seq![
        "query: "@ + query,
        "top_k: "@ + decimal_spec(top_k),
        "request_context:"@,
        "- requester_user_id="@ + context.user_id@,
        "- group_id="@ + context.group_id@,
        "- hour_of_day="@ + signed_decimal_spec(context.hour_of_day as int),
        "candidates:"@,
    ]
}

/// The bytes lines take in the prompt, each with its line break.
pub open spec fn lines_used(ls: Seq<Seq<char>>) -> nat
    decreases ls.len(),
{
    if ls.len() == 0 {
        0
    } else {
        lines_used(ls.drop_last()) + utf8_len(ls.last()) + 1
    }
}

/// How many of `cands` join a prompt that has `n_lines` lines using `used`
/// bytes: each in turn while it fits the budget, the first two always.
pub open spec fn candidates_taken(used: nat, n_lines: nat, cands: Seq<Seq<char>>, budget: nat) -> nat
    decreases cands.len(),
{
    if cands.len() == 0 {
        0
    } else {
        let l = utf8_len(cands[0]) + 1;
        if n_lines > 8 && used + l > budget {
            0
        } else {
            1 + candidates_taken(used + l, n_lines + 1, cands.drop_first(), budget)
        }
    }
}

/// The re-ranking prompt: its head, then the candidate lines that fit the
/// byte budget (the first two always), one per line.
pub open spec fn rerank_prompt_spec(query: Seq<char>, top_k: nat, context: RetrievalContext, cands: Seq<Seq<char>>, budget: nat) -> Seq<char> {
    let head = rerank_header(query, top_k, context);
    let k = candidates_taken(lines_used(head), 7, cands, budget);
    join_with(head + cands.take(k as int), "\n"@)
}

proof fn lemma_lines_used_push(ls: Seq<Seq<char>>, l: Seq<char>)
    ensures
        lines_used(ls.push(l)) == lines_used(ls) + utf8_len(l) + 1,
{
    assert(ls.push(l).drop_last() =~= ls);
}

proof fn lemma_taken_step(used: nat, n_lines: nat, cands: Seq<Seq<char>>, budget: nat, i: int)
    requires
        0 <= i < cands.len(),
    ensures
        candidates_taken(used, n_lines, cands.skip(i), budget) == ({
            let l = utf8_len(cands[i]) + 1;
            if n_lines > 8 && used + l > budget {
                0
            } else {
                1 + candidates_taken(used + l, n_lines + 1, cands.skip(i + 1), budget)
            }
        }),
{
    assert(cands.skip(i)[0] == cands[i]);
    assert(cands.skip(i).drop_first() =~= cands.skip(i + 1));
}

proof fn lemma_lines_used_prefix(ls: Seq<Seq<char>>, k: int)
    requires
        0 <= k <= ls.len(),
    ensures
        lines_used(ls.take(k)) <= lines_used(ls),
    decreases ls.len() - k,
{
    if k < ls.len() {
        lemma_lines_used_prefix(ls, k + 1);
        assert(ls.take(k + 1).drop_last() =~= ls.take(k));
    } else {
        assert(ls.take(k) =~= ls);
    }
}

/// The prompt asking the re-ranking model to order `candidate_lines` for
/// `query` (see `rerank_prompt_spec`); the lines must fit in memory
/// together.
pub fn rerank_user_prompt(
    query: &str,
    candidate_lines: &[String],
    top_k: usize,
    context: &RetrievalContext,
    total_prompt_budget: usize,
) -> (r: String)
    requires
        lines_used(rerank_header(query@, top_k as nat, *context)) + lines_used(
            candidate_lines@.map_values(|l: String| l@),
        ) <= usize::MAX,
    ensures
        r@ == rerank_prompt_spec(
            query@,
            top_k as nat,
            *context,
            candidate_lines@.map_values(|l: String| l@),
            total_prompt_budget as nat,
        ),
{
    let ghost cands = candidate_lines@.map_values(|l: String| l@);
    let ghost head = rerank_header(query@, top_k as nat, *context);
    let mut lines: Vec<Vec<char>> = Vec::new();
    lines.push(concat_chars(&chars_of("query: "), &chars_of(query)));
    lines.push(concat_chars(&chars_of("top_k: "), &decimal(top_k)));
    lines.push(chars_of("request_context:"));
    lines.push(concat_chars(&chars_of("- requester_user_id="), &chars_of(context.user_id.as_str())));
    lines.push(concat_chars(&chars_of("- group_id="), &chars_of(context.group_id.as_str())));
    lines.push(concat_chars(&chars_of("- hour_of_day="), &decimal_i64(context.hour_of_day as i64)));
    lines.push(chars_of("candidates:"));
    proof {
        assert(views(lines@) =~= head);
    }
    let mut used: usize = 0;
    let mut h: usize = 0;
    proof {
        assert(head.take(0) =~= Seq::<Seq<char>>::empty());
        lemma_lines_used_prefix(head, 7);
        assert(head.take(7) =~= head);
    }
    while h < 7
        invariant
            h <= 7,
            lines@.len() == 7,
            views(lines@) == head,
            head.len() == 7,
            used == lines_used(head.take(h as int)),
            lines_used(head) + lines_used(cands) <= usize::MAX,
        decreases 7 - h,
    {
        proof {
            assert(head.take(h + 1) =~= head.take(h as int).push(head[h as int]));
            lemma_lines_used_push(head.take(h as int), head[h as int]);
            lemma_lines_used_prefix(head, h + 1);
            assert(lines@[h as int]@ == head[h as int]);
        }
        let piece = string_of(&lines[h]);
        used = used + byte_len(piece.as_str()) + 1;
        h = h + 1;
    }
    proof {
        assert(head.take(7) =~= head);
    }
    let mut i: usize = 0;
    let mut taken: usize = 0;
    let mut stopped = false;
    proof {
        assert(cands.skip(0) =~= cands);
        assert(cands.take(0) =~= Seq::<Seq<char>>::empty());
    }
    while i < candidate_lines.len() && !stopped
        invariant
            i <= candidate_lines@.len(),
            cands == candidate_lines@.map_values(|l: String| l@),
            head == rerank_header(query@, top_k as nat, *context),
            head.len() == 7,
            taken == i,
            lines@.len() == 7 + i,
            views(lines@) == head + cands.take(i as int),
            used == lines_used(head) + lines_used(cands.take(i as int)),
            lines_used(head) + lines_used(cands) <= usize::MAX,
            !stopped ==> candidates_taken(lines_used(head), 7, cands, total_prompt_budget as nat)
                == i + candidates_taken(used as nat, (7 + i) as nat, cands.skip(i as int), total_prompt_budget as nat),
            stopped ==> candidates_taken(lines_used(head), 7, cands, total_prompt_budget as nat) == i,
        decreases candidate_lines.len() - i, if stopped { 0int } else { 1int },
    {
        let line = chars_of(candidate_lines[i].as_str());
        let l = byte_len(candidate_lines[i].as_str());
        proof {
            lemma_taken_step(used as nat, (7 + i) as nat, cands, total_prompt_budget as nat, i as int);
            assert(cands[i as int] == candidate_lines@[i as int]@);
            lemma_lines_used_push(cands.take(i as int), cands[i as int]);
            assert(cands.take(i + 1) =~= cands.take(i as int).push(cands[i as int]));
            lemma_lines_used_prefix(cands, i + 1);
        }
        if lines.len() > 8 && used + l + 1 > total_prompt_budget {
            stopped = true;
        } else {
            let ghost before = views(lines@);
            lines.push(line);
            used = used + l + 1;
            proof {
                assert(views(lines@) =~= before.push(cands[i as int]));
                assert(head + cands.take(i + 1) =~= (head + cands.take(i as int)).push(cands[i as int]));
            }
            i = i + 1;
            taken = taken + 1;
        }
    }
    proof {
        if !stopped {
            assert(i == candidate_lines@.len());
            assert(cands.skip(i as int) =~= Seq::<Seq<char>>::empty());
        }
    }
    string_of(&join_chars(&lines, "\n"))
}

} // verus!

verus! {

/// The position of the last candidate whose id is `id`, if any.
pub open spec fn last_with_id(ids: Seq<Seq<char>>, id: Seq<char>) -> Option<int>
    decreases ids.len(),
{
    if ids.len() == 0 {
        None
    } else if ids.last() == id {
        Some(ids.len() - 1)
    } else {
        last_with_id(ids.drop_last(), id)
    }
}

/// The ranked ids that name a candidate, in the ranking's order: the
/// position of the last candidate with that id, and the position in the
/// ranking.
pub open spec fn ranked_matches(cids: Seq<Seq<char>>, rids: Seq<Seq<char>>) -> Seq<(int, int)>
    decreases rids.len(),
{
    if rids.len() == 0 {
        Seq::empty()
    } else {
        let p = ranked_matches(cids, rids.drop_last());
        match last_with_id(cids, rids.last()) {
            Some(i) => p.push((i, rids.len() - 1)),
            None => p,
        }
    }
}

/// The candidate at `i` is the last with its id.
pub open spec fn last_of_its_id(cids: Seq<Seq<char>>, i: int) -> bool {
    forall|j: int| i < j < cids.len() ==> #[trigger] cids[j] != cids[i]
}

/// The positions of the candidates that are the last with their id, in order.
pub open spec fn one_per_id(cids: Seq<Seq<char>>, n: nat) -> Seq<int>
    decreases n,
{
    if n == 0 || n > cids.len() {
        Seq::empty()
    } else if last_of_its_id(cids, n - 1) {
        one_per_id(cids, (n - 1) as nat).push(n - 1)
    } else {
        one_per_id(cids, (n - 1) as nat)
    }
}

/// At most `k` of `s`, from the front.
pub open spec fn first_k<A>(s: Seq<A>, k: nat) -> Seq<A> {
    s.take(if k < s.len() { k as int } else { s.len() as int })
}

/// How the re-ranking model's answer orders the candidates.
pub enum RerankOrder {
    /// The model ranked nothing: the candidates stay as given.
    AsGiven,
    /// The model's ranking: pairs of a candidate's position and its position
    /// in the ranking.
    Ranked(Vec<(usize, usize)>),
    /// Nothing the model ranked is a candidate: one candidate per id.
    Unranked(Vec<usize>),
}

fn last_with_id_exec(cids: &[String], id: &String) -> (r: Option<usize>)
    ensures
        match r {
            Some(i) => last_with_id(cids@.map_values(|s: String| s@), id@) == Some(i as int),
            None => last_with_id(cids@.map_values(|s: String| s@), id@) is None,
        },
{
    let ghost cv = cids@.map_values(|s: String| s@);
    let idc = chars_of(id.as_str());
    let mut k: usize = cids.len();
    proof {
        assert(cv.take(k as int) =~= cv);
    }
    while k > 0
        invariant
            k <= cids@.len(),
            cv == cids@.map_values(|s: String| s@),
            idc@ == id@,
            last_with_id(cv.take(k as int), id@) == last_with_id(cv, id@),
        decreases k,
    {
        let c = chars_of(cids[k - 1].as_str());
        proof {
            assert(cv.take(k as int).last() == cv[k - 1]);
            assert(cv.take(k as int).drop_last() =~= cv.take(k - 1));
        }
        if crate::text::chars_eq(&c, &idc) {
            return Some(k - 1);
        }
        k = k - 1;
    }
    proof {
        assert(cv.take(0) =~= Seq::<Seq<char>>::empty());
    }
    None
}

/// How the re-ranking model's ranking orders the candidates: as given when
/// it ranked nothing; otherwise the first `top_k` ranked ids that name a
/// candidate (each paired with the last candidate of that id); where none
/// does, the first `top_k` candidates that are the last with their id.
pub fn rerank_order(candidate_ids: &[String], ranked_ids: &[String], top_k: usize) -> (r: RerankOrder)
    ensures
        ({
            let cv = candidate_ids@.map_values(|s: String| s@);
            let rv = ranked_ids@.map_values(|s: String| s@);
            let m = ranked_matches(cv, rv);
            match r {
                RerankOrder::AsGiven => rv.len() == 0,
                RerankOrder::Ranked(v) => rv.len() > 0 && m.len() > 0
                    && v@.map_values(|p: (usize, usize)| (p.0 as int, p.1 as int)) == first_k(m, top_k as nat),
                RerankOrder::Unranked(v) => rv.len() > 0 && m.len() == 0
                    && v@.map_values(|i: usize| i as int) == first_k(one_per_id(cv, cv.len()), top_k as nat),
            }
        }),
{
    let ghost cv = candidate_ids@.map_values(|s: String| s@);
    let ghost rv = ranked_ids@.map_values(|s: String| s@);
    if ranked_ids.len() == 0 {
        return RerankOrder::AsGiven;
    }
    let mut pairs: Vec<(usize, usize)> = Vec::new();
    let mut j: usize = 0;
    proof {
        assert(rv.take(0) =~= Seq::<Seq<char>>::empty());
    }
    while j < ranked_ids.len()
        invariant
            j <= ranked_ids@.len(),
            cv == candidate_ids@.map_values(|s: String| s@),
            rv == ranked_ids@.map_values(|s: String| s@),
            pairs@.map_values(|p: (usize, usize)| (p.0 as int, p.1 as int)) == ranked_matches(cv, rv.take(j as int)),
        decreases ranked_ids.len() - j,
    {
        proof {
            assert(rv.take(j + 1).drop_last() =~= rv.take(j as int));
            assert(rv.take(j + 1).last() == ranked_ids@[j as int]@);
        }
        let ghost before = pairs@;
        match last_with_id_exec(candidate_ids, &ranked_ids[j]) {
            Some(i) => {
                pairs.push((i, j));
                proof {
                    assert(pairs@.map_values(|p: (usize, usize)| (p.0 as int, p.1 as int)) =~= before.map_values(
                        |p: (usize, usize)| (p.0 as int, p.1 as int),
                    ).push((i as int, j as int)));
                }
            },
            None => {},
        }
        j = j + 1;
    }
    proof {
        assert(rv.take(rv.len() as int) =~= rv);
    }
    if pairs.len() > 0 {
        let ghost all = pairs@;
        if top_k < pairs.len() {
            pairs.truncate(top_k);
        }
        proof {
            assert(pairs@.map_values(|p: (usize, usize)| (p.0 as int, p.1 as int)) =~= first_k(
                all.map_values(|p: (usize, usize)| (p.0 as int, p.1 as int)),
                top_k as nat,
            ));
        }
        return RerankOrder::Ranked(pairs);
    }
    let n = candidate_ids.len();
    let mut keep: Vec<usize> = Vec::new();
    let mut i: usize = 0;
    while i < n
        invariant
            i <= n,
            n == candidate_ids@.len(),
            cv == candidate_ids@.map_values(|s: String| s@),
            keep@.map_values(|x: usize| x as int) == one_per_id(cv, i as nat),
        decreases n - i,
    {
        let c = chars_of(candidate_ids[i].as_str());
        let mut later = false;
        let mut t: usize = i + 1;
        while t < n
            invariant
                i < t <= n,
                n == candidate_ids@.len(),
                cv == candidate_ids@.map_values(|s: String| s@),
                c@ == cv[i as int],
                later == exists|u: int| i < u < t && #[trigger] cv[u] == cv[i as int],
            decreases n - t,
        {
            if !later && crate::text::chars_eq(&chars_of(candidate_ids[t].as_str()), &c) {
                later = true;
                proof {
                    assert(cv[t as int] == cv[i as int]);
                }
            }
            t = t + 1;
        }
        let ghost before = keep@;
        if !later {
            keep.push(i);
            proof {
                assert(last_of_its_id(cv, i as int));
                assert(keep@.map_values(|x: usize| x as int) =~= before.map_values(|x: usize| x as int).push(i as int));
            }
        } else {
            proof {
                let u = choose|u: int| i < u < n && #[trigger] cv[u] == cv[i as int];
                assert(!last_of_its_id(cv, i as int));
            }
        }
        i = i + 1;
    }
    let ghost all = keep@;
    if top_k < keep.len() {
        keep.truncate(top_k);
    }
    proof {
        assert(keep@.map_values(|x: usize| x as int) =~= first_k(all.map_values(|x: usize| x as int), top_k as nat));
    }
    RerankOrder::Unranked(keep)
}

} // verus!

verus! {

proof fn lemma_last_with_id(ids: Seq<Seq<char>>, id: Seq<char>)
    ensures
        match last_with_id(ids, id) {
            Some(i) => 0 <= i < ids.len() && ids[i] == id && forall|j: int| i < j < ids.len() ==> ids[j] != id,
            None => forall|j: int| 0 <= j < ids.len() ==> ids[j] != id,
        },
    decreases ids.len(),
{
    if ids.len() > 0 && ids.last() != id {
        lemma_last_with_id(ids.drop_last(), id);
        assert forall|j: int| 0 <= j < ids.len() - 1 implies ids[j] == ids.drop_last()[j] by {}
    }
}

/// Every pair of the re-ranking order names a candidate by the id the
/// model ranked, the last candidate with that id, and the rankings in
/// their order.
pub proof fn law_ranked_pairs_name_their_candidates(cids: Seq<Seq<char>>, rids: Seq<Seq<char>>)
    ensures
        forall|k: int| 0 <= k < ranked_matches(cids, rids).len() ==> {
            let p = #[trigger] ranked_matches(cids, rids)[k];
            &&& 0 <= p.0 < cids.len()
            &&& 0 <= p.1 < rids.len()
            &&& cids[p.0] == rids[p.1]
            &&& last_of_its_id(cids, p.0)
        },
        forall|a: int, b: int|
            0 <= a < b < ranked_matches(cids, rids).len() ==> #[trigger] ranked_matches(cids, rids)[a].1
                < #[trigger] ranked_matches(cids, rids)[b].1,
    decreases rids.len(),
{
    if rids.len() > 0 {
        let d = rids.drop_last();
        law_ranked_pairs_name_their_candidates(cids, d);
        lemma_last_with_id(cids, rids.last());
        let p = ranked_matches(cids, d);
        assert forall|k: int| 0 <= k < p.len() implies (#[trigger] p[k]).1 < d.len() && rids[p[k].1] == d[p[k].1] by {}
    }
}

} // verus!
