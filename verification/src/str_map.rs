//! A small map keyed by text, kept as a vector of entries with distinct keys.
use vstd::prelude::*;

use crate::text::chars_eq;

verus! {

/// Map from text keys to values; the keys of the entries are pairwise distinct.
pub struct StrMap<V> {
    entries: Vec<(Vec<char>, V)>,
}

/// The map that a list of entries with distinct keys stands for.
pub open spec fn entries_view<V>(s: Seq<(Vec<char>, V)>) -> Map<Seq<char>, V>
    decreases s.len(),
{
    if s.len() == 0 {
        Map::empty()
    } else {
        entries_view(s.drop_last()).insert(s.last().0@, s.last().1)
    }
}

pub open spec fn distinct_keys<V>(s: Seq<(Vec<char>, V)>) -> bool {
    forall|i: int, j: int| 0 <= i < j < s.len() ==> s[i].0@ != s[j].0@
}

proof fn lemma_entries_view_dom<V>(s: Seq<(Vec<char>, V)>, k: Seq<char>)
    ensures
        entries_view(s).dom().contains(k) <==> exists|i: int| 0 <= i < s.len() && s[i].0@ == k,
    decreases s.len(),
{
    if s.len() > 0 {
        lemma_entries_view_dom(s.drop_last(), k);
        if entries_view(s.drop_last()).dom().contains(k) {
            let i = choose|i: int| 0 <= i < s.drop_last().len() && s.drop_last()[i].0@ == k;
            assert(s[i].0@ == k);
        }
        if exists|i: int| 0 <= i < s.len() && s[i].0@ == k {
            let i = choose|i: int| 0 <= i < s.len() && s[i].0@ == k;
            if i < s.len() - 1 {
                assert(s.drop_last()[i].0@ == k);
            }
        }
    }
}

proof fn lemma_entries_view_value<V>(s: Seq<(Vec<char>, V)>, i: int)
    requires
        distinct_keys(s),
        0 <= i < s.len(),
    ensures
        entries_view(s).dom().contains(s[i].0@),
        entries_view(s)[s[i].0@] == s[i].1,
    decreases s.len(),
{
    lemma_entries_view_dom(s, s[i].0@);
    if i < s.len() - 1 {
        lemma_entries_view_value(s.drop_last(), i);
        assert(s.drop_last()[i] == s[i]);
    }
}

proof fn lemma_entries_view_remove<V>(s: Seq<(Vec<char>, V)>, i: int)
    requires
        distinct_keys(s),
        0 <= i < s.len(),
    ensures
        entries_view(s.remove(i)) == entries_view(s).remove(s[i].0@),
        distinct_keys(s.remove(i)),
{
    let t = s.remove(i);
    assert forall|k: Seq<char>| #[trigger] entries_view(t).dom().contains(k) <==> entries_view(
        s,
    ).remove(s[i].0@).dom().contains(k) by {
        lemma_entries_view_dom(t, k);
        lemma_entries_view_dom(s, k);
        if entries_view(t).dom().contains(k) {
            let j = choose|j: int| 0 <= j < t.len() && t[j].0@ == k;
            if j < i {
                assert(t[j] == s[j]);
            } else {
                assert(t[j] == s[j + 1]);
            }
        }
        if entries_view(s).remove(s[i].0@).dom().contains(k) {
            let j = choose|j: int| 0 <= j < s.len() && s[j].0@ == k;
            if j < i {
                assert(t[j] == s[j]);
            } else {
                assert(t[j - 1] == s[j]);
            }
        }
    }
    assert forall|k: Seq<char>| #[trigger] entries_view(t).dom().contains(k) implies entries_view(
        t,
    )[k] == entries_view(s).remove(s[i].0@)[k] by {
        lemma_entries_view_dom(t, k);
        let j = choose|j: int| 0 <= j < t.len() && t[j].0@ == k;
        lemma_entries_view_value(t, j);
        if j < i {
            assert(t[j] == s[j]);
            lemma_entries_view_value(s, j);
        } else {
            assert(t[j] == s[j + 1]);
            lemma_entries_view_value(s, j + 1);
        }
    }
    assert(entries_view(t) =~= entries_view(s).remove(s[i].0@));
}

proof fn lemma_entries_view_push<V>(s: Seq<(Vec<char>, V)>, e: (Vec<char>, V))
    requires
        distinct_keys(s),
        !entries_view(s).dom().contains(e.0@),
    ensures
        entries_view(s.push(e)) == entries_view(s).insert(e.0@, e.1),
        distinct_keys(s.push(e)),
{
    assert(s.push(e).drop_last() =~= s);
    assert forall|i: int| 0 <= i < s.len() implies s[i].0@ != e.0@ by {
        lemma_entries_view_dom(s, e.0@);
    }
}

impl<V> StrMap<V> {
    /// Map from keys (as characters) to values.
    pub closed spec fn view(&self) -> Map<Seq<char>, V> {
        entries_view(self.entries@)
    }

    /// The entries have pairwise distinct keys.
    pub closed spec fn wf(&self) -> bool {
        distinct_keys(self.entries@)
    }

    pub proof fn lemma_finite(&self)
        ensures
            self.view().dom().finite(),
    {
        lemma_entries_view_finite(self.entries@);
    }

    /// An empty map.
    pub fn new() -> (m: Self)
        ensures
            m.wf(),
            m.view() == Map::<Seq<char>, V>::empty(),
    {
        StrMap { entries: Vec::new() }
    }

    fn index_of(&self, key: &[char]) -> (r: Option<usize>)
        requires
            self.wf(),
        ensures
            match r {
                Some(i) => i < self.entries@.len() && self.entries@[i as int].0@ == key@,
                None => !self.view().dom().contains(key@),
            },
    {
        let mut i: usize = 0;
        while i < self.entries.len()
            invariant
                i <= self.entries@.len(),
                forall|t: int| 0 <= t < i ==> self.entries@[t].0@ != key@,
            decreases self.entries.len() - i,
        {
            if chars_eq(&self.entries[i].0, key) {
                return Some(i);
            }
            i = i + 1;
        }
        proof {
            lemma_entries_view_dom(self.entries@, key@);
        }
        None
    }

    /// The value at `key`, if any.
    pub fn get(&self, key: &[char]) -> (r: Option<&V>)
        requires
            self.wf(),
        ensures
            match r {
                Some(v) => self.view().dom().contains(key@) && *v == self.view()[key@],
                None => !self.view().dom().contains(key@),
            },
    {
        match self.index_of(key) {
            Some(i) => {
                proof {
                    lemma_entries_view_value(self.entries@, i as int);
                }
                Some(&self.entries[i].1)
            },
            None => None,
        }
    }

    /// Removes `key`, handing back its value.
    pub fn take(&mut self, key: &[char]) -> (r: Option<V>)
        requires
            old(self).wf(),
        ensures
            final(self).wf(),
            final(self).view() == old(self).view().remove(key@),
            match r {
                Some(v) => old(self).view().dom().contains(key@) && v == old(self).view()[key@],
                None => !old(self).view().dom().contains(key@),
            },
    {
        match self.index_of(key) {
            Some(i) => {
                proof {
                    lemma_entries_view_value(self.entries@, i as int);
                    lemma_entries_view_remove(self.entries@, i as int);
                }
                let (_, v) = self.entries.remove(i);
                Some(v)
            },
            None => {
                proof {
                    assert(self.view().remove(key@) =~= self.view());
                }
                None
            },
        }
    }

    /// Sets the value at `key`.
    pub fn insert(&mut self, key: Vec<char>, value: V)
        requires
            old(self).wf(),
        ensures
            final(self).wf(),
            final(self).view() == old(self).view().insert(key@, value),
    {
        let _ = self.take(&key);
        let ghost k = key@;
        proof {
            lemma_entries_view_push(self.entries@, (key, value));
        }
        self.entries.push((key, value));
        proof {
            assert(self.view() =~= old(self).view().insert(k, value));
        }
    }

    /// Removes every entry.
    pub fn clear(&mut self)
        ensures
            final(self).wf(),
            final(self).view() == Map::<Seq<char>, V>::empty(),
    {
        self.entries = Vec::new();
    }
}

proof fn lemma_entries_view_finite<V>(s: Seq<(Vec<char>, V)>)
    ensures
        entries_view(s).dom().finite(),
    decreases s.len(),
{
    if s.len() > 0 {
        lemma_entries_view_finite(s.drop_last());
    }
}

} // verus!

verus! {

/// The entries of `m` whose value is at least `bound`.
pub open spec fn at_least(m: Map<Seq<char>, u64>, bound: u64) -> Map<Seq<char>, u64> {
    Map::new(|k: Seq<char>| m.dom().contains(k) && m[k] >= bound, |k: Seq<char>| m[k])
}

impl StrMap<u64> {
    /// Drops every entry whose value is below `bound`.
    pub fn retain_at_least(&mut self, bound: u64)
        requires
            old(self).wf(),
        ensures
            final(self).wf(),
            final(self).view() == at_least(old(self).view(), bound),
    {
        let ghost s = self.entries@;
        let mut out: Vec<(Vec<char>, u64)> = Vec::new();
        let mut i: usize = 0;
        proof {
            assert(s.take(0) =~= Seq::<(Vec<char>, u64)>::empty());
            assert(entries_view(out@) =~= at_least(entries_view(s.take(0)), bound));
        }
        while i < self.entries.len()
            invariant
                s == self.entries@,
                distinct_keys(s),
                i <= s.len(),
                distinct_keys(out@),
                entries_view(out@) == at_least(entries_view(s.take(i as int)), bound),
                forall|k: Seq<char>|
                    #[trigger] entries_view(out@).dom().contains(k) ==> entries_view(
                        s.take(i as int),
                    ).dom().contains(k),
            decreases s.len() - i,
        {
            let ghost pre = s.take(i as int);
            let ghost e = s[i as int];
            proof {
                assert(s.take(i + 1).drop_last() =~= pre);
                assert(s.take(i + 1).last() == e);
                lemma_entries_view_dom(pre, e.0@);
                if entries_view(pre).dom().contains(e.0@) {
                    let j = choose|j: int| 0 <= j < pre.len() && pre[j].0@ == e.0@;
                    assert(s[j].0@ != s[i as int].0@);
                }
            }
            if self.entries[i].1 >= bound {
                let key = self.entries[i].0.clone();
                let ghost k = key@;
                proof {
                    assert(k == e.0@);
                    lemma_entries_view_push(out@, (key, e.1));
                }
                out.push((key, self.entries[i].1));
                proof {
                    assert(entries_view(out@) =~= at_least(entries_view(s.take(i + 1)), bound));
                }
            } else {
                proof {
                    assert(entries_view(out@) =~= at_least(entries_view(s.take(i + 1)), bound));
                }
            }
            i = i + 1;
        }
        proof {
            assert(s.take(s.len() as int) =~= s);
        }
        self.entries = out;
    }
}

} // verus!
