//! Restoring the latest sessions of a scope into a prompt: recent messages
//! grouped by session, ordered in time, and summed up.
use vstd::prelude::*;
use crate::extraction::chat_summary::{simple_summary_spec, ChatSummaryService};
use crate::internal::access_policy::MemoryAccessContext;
use crate::ordering::lemma_filter_push;
use crate::text::{
    chars_eq, chars_of, concat_chars, contains_piece, decimal, decimal_spec, eq_str, string_of, views,
};

verus! {

/// A recent message as the restoring of sessions reads it.
pub struct RecentMessage {
    pub session_id: String,
    pub text: String,
    /// Orders messages by the time they were sent.
    pub time_key: u64,
    /// The time it was sent, as the prompt shows it.
    pub time_text: String,
}

impl RecentMessage {
    /// A copy with equal fields.
    pub fn duplicate(&self) -> (r: Self)
        ensures
            r == *self,
    {
        RecentMessage {
            session_id: self.session_id.clone(),
            text: self.text.clone(),
            time_key: self.time_key,
            time_text: self.time_text.clone(),
        }
    }
}

/// `s` with `x` placed after every message not later than it (`s` in time
/// order stays in time order; messages of equal time keep their order).
pub open spec fn insert_by_time(s: Seq<RecentMessage>, x: RecentMessage) -> Seq<RecentMessage>
    decreases s.len(),
{
    if s.len() == 0 {
        seq![x]
    } else if s.last().time_key <= x.time_key {
        s.push(x)
    } else {
        insert_by_time(s.drop_last(), x).push(s.last())
    }
}

/// `s` in time order; messages of equal time keep their order (a stable sort).
pub open spec fn sorted_by_time(s: Seq<RecentMessage>) -> Seq<RecentMessage>
    decreases s.len(),
{
    if s.len() == 0 {
        Seq::empty()
    } else {
        insert_by_time(sorted_by_time(s.drop_last()), s.last())
    }
}

proof fn lemma_insert_by_time_at(s: Seq<RecentMessage>, x: RecentMessage, p: int)
    requires
        0 <= p <= s.len(),
        p == s.len() || s[p].time_key > x.time_key,
        forall|t: int| p < t < s.len() ==> #[trigger] s[t].time_key > x.time_key,
        p == 0 || s[p - 1].time_key <= x.time_key,
    ensures
        insert_by_time(s, x) == s.take(p).push(x) + s.skip(p),
    decreases s.len(),
{
    if s.len() == 0 {
        assert(s.take(p).push(x) + s.skip(p) =~= seq![x]);
    } else if p == s.len() {
        assert(s.take(p).push(x) + s.skip(p) =~= s.push(x));
    } else {
        let d = s.drop_last();
        assert(d.len() == s.len() - 1);
        if p < d.len() {
            assert(d[p] == s[p]);
        }
        assert forall|t: int| p < t < d.len() implies #[trigger] d[t].time_key > x.time_key by {
            assert(d[t] == s[t]);
        }
        if p > 0 {
            assert(d[p - 1] == s[p - 1]);
        }
        lemma_insert_by_time_at(d, x, p);
        assert(d.take(p).push(x) + d.skip(p) + seq![s.last()] =~= s.take(p).push(x) + s.skip(p));
        assert(insert_by_time(d, x).push(s.last()) =~= d.take(p).push(x) + d.skip(p) + seq![s.last()]);
    }
}

/// `v` with `x` placed after every message not later than it.
fn insert_by_time_exec(v: &mut Vec<RecentMessage>, x: RecentMessage)
    ensures
        final(v)@ == insert_by_time(old(v)@, x),
{
    let mut p = v.len();
    while p > 0 && v[p - 1].time_key > x.time_key
        invariant
            p <= v@.len(),
            forall|t: int| p <= t < v@.len() ==> #[trigger] v@[t].time_key > x.time_key,
        decreases p,
    {
        p = p - 1;
    }
    proof {
        lemma_insert_by_time_at(v@, x, p as int);
    }
    let ghost before = v@;
    v.insert(p, x);
    proof {
        assert(v@ =~= before.take(p as int).push(x) + before.skip(p as int));
    }
}

/// `s` in time order, messages of equal time in their order.
fn sorted_by_time_exec(s: &[RecentMessage]) -> (r: Vec<RecentMessage>)
    ensures
        r@ == sorted_by_time(s@),
{
    let mut r: Vec<RecentMessage> = Vec::new();
    let mut i: usize = 0;
    proof {
        assert(s@.take(0) =~= Seq::<RecentMessage>::empty());
    }
    while i < s.len()
        invariant
            i <= s@.len(),
            r@ == sorted_by_time(s@.take(i as int)),
        decreases s.len() - i,
    {
        proof {
            assert(s@.take(i + 1).drop_last() =~= s@.take(i as int));
            assert(s@.take(i + 1).last() == s@[i as int]);
        }
        insert_by_time_exec(&mut r, s[i].duplicate());
        i = i + 1;
    }
    proof {
        assert(s@.take(s@.len() as int) =~= s@);
    }
    r
}

} // verus!

verus! {

/// The session a message belongs to: its own, or the scope's dialogue key
/// where it names none.
pub open spec fn session_of(m: RecentMessage, dialogue_key: Seq<char>) -> Seq<char> {
    if m.session_id@.len() == 0 {
        dialogue_key
    } else {
        m.session_id@
    }
}

/// The sessions of the messages, each once, in order of their first message.
pub open spec fn sessions_in_order(ms: Seq<RecentMessage>, dialogue_key: Seq<char>) -> Seq<Seq<char>>
    decreases ms.len(),
{
    if ms.len() == 0 {
        Seq::empty()
    } else {
        let s = sessions_in_order(ms.drop_last(), dialogue_key);
        let k = session_of(ms.last(), dialogue_key);
        if s.contains(k) {
            s
        } else {
            s.push(k)
        }
    }
}

/// The messages of session `k`, in time order (messages of equal time in
/// their order).
pub open spec fn messages_in(ms: Seq<RecentMessage>, dialogue_key: Seq<char>, k: Seq<char>) -> Seq<RecentMessage> {
    sorted_by_time(ms.filter(|m: RecentMessage| session_of(m, dialogue_key) == k))
}

/// When the last message of session `k` was sent.
pub open spec fn last_time(ms: Seq<RecentMessage>, dialogue_key: Seq<char>, k: Seq<char>) -> u64 {
    messages_in(ms, dialogue_key, k).last().time_key
}

/// Session `a` comes before session `b`: its last message is later, or as
/// late and its first message came first.
pub open spec fn outranks(ms: Seq<RecentMessage>, dialogue_key: Seq<char>, a: int, b: int) -> bool {
    let sids = sessions_in_order(ms, dialogue_key);
    let ta = last_time(ms, dialogue_key, sids[a]);
    let tb = last_time(ms, dialogue_key, sids[b]);
    ta > tb || (ta == tb && a < b)
}

/// Session `a` comes before every other session but `skip`.
pub open spec fn is_latest(ms: Seq<RecentMessage>, dialogue_key: Seq<char>, a: int, skip: int) -> bool {
    let n = sessions_in_order(ms, dialogue_key).len();
    &&& 0 <= a < n
    &&& a != skip
    &&& forall|b: int| 0 <= b < n && b != a && b != skip ==> #[trigger] outranks(ms, dialogue_key, a, b)
}

/// At most one session comes before all the others.
pub proof fn lemma_latest_unique(ms: Seq<RecentMessage>, dialogue_key: Seq<char>, a: int, b: int, skip: int)
    requires
        is_latest(ms, dialogue_key, a, skip),
        is_latest(ms, dialogue_key, b, skip),
    ensures
        a == b,
{
    if a != b {
        assert(outranks(ms, dialogue_key, a, b));
        assert(outranks(ms, dialogue_key, b, a));
    }
}

/// The prompt text restoring a session: its label, when it ended and how
/// many messages it had, and a summary of its messages.
pub open spec fn restore_text(label: Seq<char>, msgs: Seq<RecentMessage>) -> Seq<char> {
    let n = decimal_spec(msgs.len());
    let t = if msgs.last().time_text@.len() > 0 {
        "（"@ + msgs.last().time_text@ + "，"@ + n + "轮）"@
    } else {
        "（"@ + n + "轮）"@
    };
    label + t + "："@ + simple_summary_spec(msgs.map_values(|m: RecentMessage| m.text@))
}

proof fn lemma_insert_by_time_len(s: Seq<RecentMessage>, x: RecentMessage)
    ensures
        insert_by_time(s, x).len() == s.len() + 1,
    decreases s.len(),
{
    if s.len() > 0 && s.last().time_key > x.time_key {
        lemma_insert_by_time_len(s.drop_last(), x);
    }
}

proof fn lemma_sorted_by_time_len(s: Seq<RecentMessage>)
    ensures
        sorted_by_time(s).len() == s.len(),
    decreases s.len(),
{
    if s.len() > 0 {
        lemma_sorted_by_time_len(s.drop_last());
        lemma_insert_by_time_len(sorted_by_time(s.drop_last()), s.last());
    }
}

/// Each session in order has a message.
proof fn lemma_session_has_message(ms: Seq<RecentMessage>, dialogue_key: Seq<char>, j: int)
    requires
        0 <= j < sessions_in_order(ms, dialogue_key).len(),
    ensures
        exists|i: int| 0 <= i < ms.len() && session_of(#[trigger] ms[i], dialogue_key) == sessions_in_order(ms, dialogue_key)[j],
    decreases ms.len(),
{
    let d = ms.drop_last();
    let s = sessions_in_order(d, dialogue_key);
    if j < s.len() {
        lemma_session_has_message(d, dialogue_key, j);
        let i = choose|i: int| 0 <= i < d.len() && session_of(#[trigger] d[i], dialogue_key) == s[j];
        assert(ms[i] == d[i]);
    } else {
        assert(session_of(ms[ms.len() - 1], dialogue_key) == sessions_in_order(ms, dialogue_key)[j]);
    }
}

/// Sessions in order are distinct.
proof fn lemma_sessions_distinct(ms: Seq<RecentMessage>, dialogue_key: Seq<char>)
    ensures
        forall|a: int, b: int|
            0 <= a < b < sessions_in_order(ms, dialogue_key).len() ==> #[trigger] sessions_in_order(ms, dialogue_key)[a]
                != #[trigger] sessions_in_order(ms, dialogue_key)[b],
    decreases ms.len(),
{
    if ms.len() > 0 {
        let d = ms.drop_last();
        lemma_sessions_distinct(d, dialogue_key);
        let s = sessions_in_order(d, dialogue_key);
        let k = session_of(ms.last(), dialogue_key);
        if !s.contains(k) {
            let t = s.push(k);
            assert forall|a: int, b: int| 0 <= a < b < t.len() implies #[trigger] t[a] != #[trigger] t[b] by {
                assert(t[a] == s[a]);
                if b == s.len() {
                    assert(s.contains(s[a]));
                } else {
                    assert(t[b] == s[b]);
                }
            }
        }
    }
}

fn session_key_of(m: &RecentMessage, dialogue_key: &[char]) -> (r: Vec<char>)
    ensures
        r@ == session_of(*m, dialogue_key@),
{
    let id = chars_of(m.session_id.as_str());
    if id.len() == 0 {
        concat_chars(dialogue_key, &[])
    } else {
        id
    }
}

/// The restored sessions of a scope, latest first: from `messages`, grouped
/// by session (messages without a session belong to `dialogue_key`), each
/// session in time order, sessions ordered by when their last message was
/// sent (sessions as late in order of their first message); the first two,
/// labelled "上一轮会话" and "更早一轮会话".
pub fn session_restore_contents(messages: &[RecentMessage], dialogue_key: &str) -> (r: Vec<String>)
    ensures
        ({
            let ms = messages@;
            let dk = dialogue_key@;
            let sids = sessions_in_order(ms, dk);
            &&& r@.len() == (if sids.len() < 2 { sids.len() } else { 2 })
            &&& r@.len() >= 1 ==> exists|a: int|
                #[trigger] is_latest(ms, dk, a, -1) && r@[0]@ == restore_text("上一轮会话"@, messages_in(ms, dk, sids[a]))
                    && (r@.len() == 2 ==> exists|b: int|
                    #[trigger] is_latest(ms, dk, b, a) && r@[1]@ == restore_text("更早一轮会话"@, messages_in(ms, dk, sids[b])))
        }),
{
    let ghost ms = messages@;
    let ghost dk = dialogue_key@;
    let dkc = chars_of(dialogue_key);
    // the sessions, in order of their first message
    let mut sids: Vec<Vec<char>> = Vec::new();
    let mut i: usize = 0;
    proof {
        assert(ms.take(0) =~= Seq::<RecentMessage>::empty());
    }
    while i < messages.len()
        invariant
            i <= ms.len(),
            ms == messages@,
            dkc@ == dk,
            views(sids@) == sessions_in_order(ms.take(i as int), dk),
        decreases messages.len() - i,
    {
        proof {
            assert(ms.take(i + 1).drop_last() =~= ms.take(i as int));
            assert(ms.take(i + 1).last() == ms[i as int]);
        }
        let key = session_key_of(&messages[i], &dkc);
        if !contains_piece(&sids, &key) {
            let ghost before = sids@;
            sids.push(key);
            proof {
                assert(views(sids@) =~= views(before).push(key@));
            }
        }
        i = i + 1;
    }
    proof {
        assert(ms.take(ms.len() as int) =~= ms);
        lemma_sessions_distinct(ms, dk);
    }
    let ghost sv = sessions_in_order(ms, dk);
    let n = sids.len();
    // each session's messages in time order, and when its last one was sent
    let mut groups: Vec<Vec<RecentMessage>> = Vec::new();
    let mut lasts: Vec<u64> = Vec::new();
    let mut j: usize = 0;
    while j < n
        invariant
            j <= n,
            n == sv.len(),
            views(sids@) == sv,
            sv == sessions_in_order(ms, dk),
            ms == messages@,
            dkc@ == dk,
            groups@.len() == j,
            lasts@.len() == j,
            forall|t: int| 0 <= t < j ==> (#[trigger] groups@[t])@ == messages_in(ms, dk, sv[t]),
            forall|t: int| 0 <= t < j ==> groups@[t]@.len() > 0,
            forall|t: int| 0 <= t < j ==> #[trigger] lasts@[t] == last_time(ms, dk, sv[t]),
        decreases n - j,
    {
        let ghost k = sv[j as int];
        let ghost f = |m: RecentMessage| session_of(m, dk) == k;
        let mut col: Vec<RecentMessage> = Vec::new();
        let mut q: usize = 0;
        proof {
            assert(ms.take(0) =~= Seq::<RecentMessage>::empty());
            assert(ms.take(0).filter(f) =~= Seq::<RecentMessage>::empty()) by {
                reveal_with_fuel(Seq::filter, 1);
            }
            assert(sids@[j as int]@ == k);
        }
        while q < messages.len()
            invariant
                q <= ms.len(),
                ms == messages@,
                dkc@ == dk,
                j < sids@.len(),
                sids@[j as int]@ == k,
                f == (|m: RecentMessage| session_of(m, dk) == k),
                col@ == ms.take(q as int).filter(f),
            decreases messages.len() - q,
        {
            proof {
                assert(ms.take(q + 1) =~= ms.take(q as int).push(ms[q as int]));
                lemma_filter_push(ms.take(q as int), ms[q as int], f);
            }
            let key = session_key_of(&messages[q], &dkc);
            if chars_eq(&key, &sids[j]) {
                col.push(messages[q].duplicate());
                proof {
                    assert(col@ =~= ms.take(q + 1).filter(f));
                }
            } else {
                proof {
                    assert(col@ =~= ms.take(q + 1).filter(f));
                }
            }
            q = q + 1;
        }
        proof {
            assert(ms.take(ms.len() as int) =~= ms);
            lemma_session_has_message(ms, dk, j as int);
            let w = choose|w: int| 0 <= w < ms.len() && session_of(#[trigger] ms[w], dk) == sv[j as int];
            assert(f(ms[w]));
            ms.lemma_filter_contains(f, w);
            lemma_sorted_by_time_len(ms.filter(f));
            assert(messages_in(ms, dk, k) == sorted_by_time(ms.filter(f)));
        }
        let sorted = sorted_by_time_exec(&col);
        let last = sorted[sorted.len() - 1].time_key;
        groups.push(sorted);
        lasts.push(last);
        j = j + 1;
    }
    let mut out: Vec<String> = Vec::new();
    if n == 0 {
        return out;
    }
    // the latest session
    let mut best: usize = 0;
    let mut t: usize = 1;
    while t < n
        invariant
            1 <= t <= n,
            best < t,
            n == sv.len(),
            sv == sessions_in_order(ms, dk),
            lasts@.len() == n,
            forall|u: int| 0 <= u < n ==> #[trigger] lasts@[u] == last_time(ms, dk, sv[u]),
            forall|b: int| 0 <= b < t && b != best ==> #[trigger] outranks(ms, dk, best as int, b),
        decreases n - t,
    {
        if lasts[t] > lasts[best] {
            proof {
                assert forall|b: int| 0 <= b < t + 1 && b != t implies #[trigger] outranks(ms, dk, t as int, b) by {
                    if b != best {
                        assert(outranks(ms, dk, best as int, b));
                    }
                }
            }
            best = t;
        } else {
            proof {
                assert(outranks(ms, dk, best as int, t as int));
            }
        }
        t = t + 1;
    }
    proof {
        assert(is_latest(ms, dk, best as int, -1));
    }
    out.push(string_of(&concat_chars(&chars_of("上一轮会话"), &restore_tail(&groups[best]))));
    proof {
        assert(out@[0]@ == restore_text("上一轮会话"@, messages_in(ms, dk, sv[best as int])));
    }
    if n == 1 {
        return out;
    }
    // the latest of the others
    let mut second: usize = if best == 0 {
        1
    } else {
        0
    };
    let mut t: usize = 0;
    while t < n
        invariant
            t <= n,
            second < n,
            second != best,
            best < n,
            n == sv.len(),
            sv == sessions_in_order(ms, dk),
            lasts@.len() == n,
            forall|u: int| 0 <= u < n ==> #[trigger] lasts@[u] == last_time(ms, dk, sv[u]),
            forall|b: int| 0 <= b < t && b != second && b != best ==> #[trigger] outranks(ms, dk, second as int, b),
            second < t || second == (if best == 0 { 1usize } else { 0usize }),
        decreases n - t,
    {
        if t != best && t != second {
            if lasts[t] > lasts[second] || (lasts[t] == lasts[second] && t < second) {
                proof {
                    assert forall|b: int| 0 <= b < t + 1 && b != t && b != best implies #[trigger] outranks(ms, dk, t as int, b) by {
                        if b != second {
                            assert(outranks(ms, dk, second as int, b));
                        }
                    }
                }
                second = t;
            } else {
                proof {
                    assert(outranks(ms, dk, second as int, t as int));
                }
            }
        }
        t = t + 1;
    }
    proof {
        assert(is_latest(ms, dk, second as int, best as int));
    }
    out.push(string_of(&concat_chars(&chars_of("更早一轮会话"), &restore_tail(&groups[second]))));
    out
}

/// The part of a restoring text after its label.
fn restore_tail(msgs: &Vec<RecentMessage>) -> (r: Vec<char>)
    requires
        msgs@.len() > 0,
    ensures
        ""@ + r@ == restore_text(""@, msgs@),
        forall|label: Seq<char>| label + r@ == #[trigger] restore_text(label, msgs@),
{
    let last = &msgs[msgs.len() - 1];
    let count = decimal(msgs.len());
    let time = chars_of(last.time_text.as_str());
    let t = if time.len() > 0 {
        concat_chars(&concat_chars(&concat_chars(&concat_chars(&chars_of("（"), &time), &chars_of("，")), &count), &chars_of("轮）"))
    } else {
        concat_chars(&concat_chars(&chars_of("（"), &count), &chars_of("轮）"))
    };
    let mut texts: Vec<String> = Vec::new();
    let mut i: usize = 0;
    while i < msgs.len()
        invariant
            i <= msgs@.len(),
            texts@.map_values(|m: String| m@) == msgs@.take(i as int).map_values(|m: RecentMessage| m.text@),
        decreases msgs.len() - i,
    {
        let c = msgs[i].text.clone();
        let ghost before = texts@;
        texts.push(c);
        proof {
            assert(c@ == msgs@[i as int].text@);
            assert(texts@ == before.push(c));
            assert(msgs@.take(i + 1) =~= msgs@.take(i as int).push(msgs@[i as int]));
            assert(texts@.map_values(|m: String| m@) =~= before.map_values(|m: String| m@).push(c@));
            assert(msgs@.take(i + 1).map_values(|m: RecentMessage| m.text@) =~= msgs@.take(i as int).map_values(|m: RecentMessage| m.text@).push(msgs@[i as int].text@));
        }
        i = i + 1;
    }
    proof {
        assert(msgs@.take(msgs@.len() as int) =~= msgs@);
    }
    let summary = ChatSummaryService::summarize_simple(&texts);
    let r = concat_chars(&concat_chars(&t, &chars_of("：")), &chars_of(summary.as_str()));
    proof {
        assert forall|label: Seq<char>| label + r@ == #[trigger] restore_text(label, msgs@) by {
            assert(label + r@ =~= restore_text(label, msgs@));
        }
        assert(""@ + r@ == restore_text(""@, msgs@));
    }
    r
}

} // verus!

verus! {

/// The scope is a group: a group message that names its group.
pub open spec fn group_scope(context: MemoryAccessContext) -> bool {
    context.message_type@ == "group"@ && context.group_id@.len() > 0
}

/// The dialogue key of the scope whose sessions are restored.
pub open spec fn restore_key_spec(context: MemoryAccessContext) -> Seq<char> {
    if group_scope(context) {
        context.platform@ + ":"@ + context.message_type@ + ":"@ + context.group_id@
    } else {
        context.platform@ + ":private:"@ + context.requester_user_id@
    }
}

/// The dialogue key of the scope whose sessions are restored, and whether
/// the scope is a group ("<platform>:group:<group>"); otherwise the
/// requester's private scope ("<platform>:private:<user>").
pub fn restore_scope(context: &MemoryAccessContext) -> (r: (String, bool))
    ensures
        r.1 == group_scope(*context),
        r.0@ == restore_key_spec(*context),
{
    let kind = chars_of(context.message_type.as_str());
    let group = chars_of(context.group_id.as_str());
    let platform = chars_of(context.platform.as_str());
    proof {
        reveal_strlit("group");
    }
    let is_group = eq_str(&kind, "group") && group.len() > 0;
    let key = if is_group {
        concat_chars(&concat_chars(&concat_chars(&concat_chars(&platform, &chars_of(":")), &kind), &chars_of(":")), &group)
    } else {
        concat_chars(&concat_chars(&platform, &chars_of(":private:")), &chars_of(context.requester_user_id.as_str()))
    };
    (string_of(&key), is_group)
}

} // verus!
