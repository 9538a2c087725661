//! The manager's bookkeeping of recalled memories: which ids name ordinary
//! memories and which name important ones.
use vstd::prelude::*;
use crate::text::{chars_of, starts_with_spec, starts_with_str};
use crate::ordering::lemma_filter_push;

verus! {

/// The id names an important memory: it starts with "imp_".
pub open spec fn important_id(id: String) -> bool {
    starts_with_spec(id@, "imp_"@)
}

/// The recalled ids split in two, each part in the order given: ids of
/// ordinary memories, then ids of important memories ("imp_…").
pub fn split_recalled_ids(memory_ids: &[String]) -> (r: (Vec<String>, Vec<String>))
    ensures
        r.0@ == memory_ids@.filter(|id: String| !important_id(id)),
        r.1@ == memory_ids@.filter(|id: String| important_id(id)),
{
    let ghost ids = memory_ids@;
    let ghost f = |id: String| !important_id(id);
    let ghost g = |id: String| important_id(id);
    let mut ordinary: Vec<String> = Vec::new();
    let mut important: Vec<String> = Vec::new();
    let mut i: usize = 0;
    proof {
        assert(ids.take(0) =~= Seq::<String>::empty());
        assert(ids.take(0).filter(f) =~= Seq::<String>::empty()) by {
            reveal_with_fuel(Seq::filter, 1);
        }
        assert(ids.take(0).filter(g) =~= Seq::<String>::empty()) by {
            reveal_with_fuel(Seq::filter, 1);
        }
    }
    while i < memory_ids.len()
        invariant
            i <= ids.len(),
            ids == memory_ids@,
            f == (|id: String| !important_id(id)),
            g == (|id: String| important_id(id)),
            ordinary@ == ids.take(i as int).filter(f),
            important@ == ids.take(i as int).filter(g),
        decreases memory_ids.len() - i,
    {
        proof {
            assert(ids.take(i + 1) =~= ids.take(i as int).push(ids[i as int]));
            lemma_filter_push(ids.take(i as int), ids[i as int], f);
            lemma_filter_push(ids.take(i as int), ids[i as int], g);
        }
        let id = memory_ids[i].clone();
        if starts_with_str(&chars_of(id.as_str()), "imp_") {
            important.push(id);
            proof {
                assert(important@ =~= ids.take(i + 1).filter(g));
                assert(ordinary@ =~= ids.take(i + 1).filter(f));
            }
        } else {
            ordinary.push(id);
            proof {
                assert(important@ =~= ids.take(i + 1).filter(g));
                assert(ordinary@ =~= ids.take(i + 1).filter(f));
            }
        }
        i = i + 1;
    }
    proof {
        assert(ids.take(ids.len() as int) =~= ids);
    }
    (ordinary, important)
}

} // verus!

verus! {

/// Splitting recalled ids loses none and repeats none: the two parts
/// together are as long as the ids given.
pub proof fn law_split_keeps_every_id(ids: Seq<String>)
    ensures
        ids.filter(|id: String| !important_id(id)).len() + ids.filter(|id: String| important_id(id)).len() == ids.len(),
    decreases ids.len(),
{
    let f = |id: String| !important_id(id);
    let g = |id: String| important_id(id);
    if ids.len() == 0 {
        assert(ids.filter(f) =~= Seq::<String>::empty()) by {
            reveal_with_fuel(Seq::filter, 1);
        }
        assert(ids.filter(g) =~= Seq::<String>::empty()) by {
            reveal_with_fuel(Seq::filter, 1);
        }
    } else {
        let d = ids.drop_last();
        law_split_keeps_every_id(d);
        assert(d.push(ids.last()) =~= ids);
        lemma_filter_push(d, ids.last(), f);
        lemma_filter_push(d, ids.last(), g);
    }
}

} // verus!
