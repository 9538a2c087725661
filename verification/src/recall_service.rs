//! Recalling earlier turns of a conversation: text normalisation, match
//! measures and how a recalled turn is quoted.
use vstd::prelude::*;
use crate::session_restore_service::{t_to_space, SessionRecord};
use crate::text::{
    byte_len, chars_eq, chars_of, concat_chars, contains, contains_spec, cuts_a_char, decimal_i64,
    join_words, keeps, lowercase_of, retain_class, shared_distinct_count, signed_decimal_spec,
    string_of, take_bytes, take_bytes_exec, to_lowercase, trim, trim_end, trim_end_spec,
    trim_spec, utf8_len, words_joined, KeepClass,
};

verus! {

/// What quoting reads of a stored turn.
pub struct ConversationTurn {
    pub turn_id: i64,
    pub user_message: String,
    pub assistant_message: String,
    pub timestamp: String,
}

/// `text` trimmed, lower-cased, without white space, keeping only
/// alphanumeric characters and CJK ideographs.
pub open spec fn recall_normalized(text: Seq<char>) -> Seq<char> {
    lowercase_of(trim_spec(text)).filter(|c: char| keeps(KeepClass::NonSpace, c)).filter(
        |c: char| keeps(KeepClass::AlnumOrCjk, c),
    )
}

/// `text` trimmed, lower-cased, without white space, keeping only
/// alphanumeric characters and CJK ideographs.
pub fn normalize_text(text: &str) -> (r: String)
    ensures
        r@ == recall_normalized(text@),
{
    let lowered = to_lowercase(&trim(&chars_of(text)));
    let compact = retain_class(&lowered, KeepClass::NonSpace);
    string_of(&retain_class(&compact, KeepClass::AlnumOrCjk))
}

/// At most `max_chars` characters of `text` with its words joined by single
/// spaces; when longer, its first `max(max_chars - 3, 1)` characters,
/// right-trimmed, then `...`.
pub open spec fn excerpt_spec(text: Seq<char>, max_chars: nat) -> Seq<char> {
    let n = words_joined(trim_spec(text));
    if n.len() <= max_chars {
        n
    } else {
        let k: nat = if max_chars > 4 {
            (max_chars - 3) as nat
        } else {
            1
        };
        trim_end_spec(n.take(k as int)) + "..."@
    }
}

/// A short quote of `text`.
pub fn excerpt(text: &str, max_chars: usize) -> (r: String)
    ensures
        r@ == excerpt_spec(text@, max_chars as nat),
{
    let n = join_words(&trim(&chars_of(text)));
    if n.len() <= max_chars {
        return string_of(&n);
    }
    let k: usize = if max_chars > 4 {
        max_chars - 3
    } else {
        1
    };
    let head = crate::text::sub_chars(&n, 0, k);
    proof {
        assert(head@ =~= n@.take(k as int));
    }
    string_of(&concat_chars(&trim_end(&head), &chars_of("...")))
}

/// Where the time of a recalled turn is read: the turn's own stamp, else
/// the session's last update, else its closing time.
pub open spec fn stamp_source(session: SessionRecord, turn: ConversationTurn) -> Seq<char> {
    if turn.timestamp@.len() == 0 {
        if session.updated_at@.len() == 0 {
            session.closed_at@
        } else {
            session.updated_at@
        }
    } else {
        turn.timestamp@
    }
}

/// The first 16 bytes of the stamp would cut a character in two (the slice
/// the quote takes would be invalid).
pub open spec fn stamp_cut(session: SessionRecord, turn: ConversationTurn) -> bool {
    cuts_a_char(t_to_space(stamp_source(session, turn)), 16)
}

/// How a recalled turn is quoted: the label, the minute and the turn number,
/// what the user said, and the reply when there was one.
pub open spec fn entry_text(
    label: Seq<char>,
    session: SessionRecord,
    turn: ConversationTurn,
    max_excerpt_chars: nat,
) -> Seq<char> {
    let stamp = take_bytes(t_to_space(stamp_source(session, turn)), 16);
    let prefix = if stamp.len() == 0 {
        label + "（第"@ + signed_decimal_spec(turn.turn_id as int) + "轮）"@
    } else {
        label + "（"@ + stamp + "，第"@ + signed_decimal_spec(turn.turn_id as int) + "轮）"@
    };
    let u = excerpt_spec(turn.user_message@, max_excerpt_chars);
    let a = excerpt_spec(turn.assistant_message@, max_excerpt_chars);
    let first = prefix + "：用户说“"@ + u + "”"@;
    if a.len() == 0 {
        first
    } else {
        first + "；"@ + "你当时回复“"@ + a + "”"@
    }
}

fn replace_t(s: &[char]) -> (r: Vec<char>)
    ensures
        r@ == t_to_space(s@),
{
    let mut out: Vec<char> = Vec::new();
    let mut i: usize = 0;
    while i < s.len()
        invariant
            i <= s@.len(),
            out@ == t_to_space(s@.take(i as int)),
        decreases s.len() - i,
    {
        let c = if s[i] == 'T' {
            ' '
        } else {
            s[i]
        };
        proof {
            assert(t_to_space(s@.take(i + 1)) =~= t_to_space(s@.take(i as int)).push(c));
        }
        out.push(c);
        i = i + 1;
    }
    proof {
        assert(s@.take(s@.len() as int) =~= s@);
    }
    out
}

/// The quote of a recalled turn.
pub fn format_entry(
    label: &str,
    session: &SessionRecord,
    turn: &ConversationTurn,
    max_excerpt_chars: usize,
) -> (r: String)
    requires
        !stamp_cut(*session, *turn),
    ensures
        r@ == entry_text(label@, *session, *turn, max_excerpt_chars as nat),
{
    let ts = chars_of(turn.timestamp.as_str());
    let updated = chars_of(session.updated_at.as_str());
    let src = if ts.len() == 0 {
        if updated.len() == 0 {
            chars_of(session.closed_at.as_str())
        } else {
            updated
        }
    } else {
        ts
    };
    let (stamp, _) = take_bytes_exec(&replace_t(&src), 16);
    let id = decimal_i64(turn.turn_id);
    let l = chars_of(label);
    let prefix = if stamp.len() == 0 {
        concat_chars(&concat_chars(&concat_chars(&l, &chars_of("（第")), &id), &chars_of("轮）"))
    } else {
        concat_chars(
            &concat_chars(
                &concat_chars(&concat_chars(&concat_chars(&l, &chars_of("（")), &stamp), &chars_of("，第")),
                &id,
            ),
            &chars_of("轮）"),
        )
    };
    let u = chars_of(excerpt(turn.user_message.as_str(), max_excerpt_chars).as_str());
    let a = chars_of(excerpt(turn.assistant_message.as_str(), max_excerpt_chars).as_str());
    let first = concat_chars(&concat_chars(&concat_chars(&prefix, &chars_of("：用户说“")), &u), &chars_of("”"));
    let all = if a.len() == 0 {
        first
    } else {
        concat_chars(
            &concat_chars(&concat_chars(&concat_chars(&first, &chars_of("；")), &chars_of("你当时回复“")), &a),
            &chars_of("”"),
        )
    };
    proof {
        assert(all@ =~= entry_text(label@, *session, *turn, max_excerpt_chars as nat));
    }
    string_of(&all)
}

/// The match of a normalised query against `text`, as a fraction
/// (numerator, denominator): when one normalised text holds the other,
/// the shorter byte length over the longer; otherwise the distinct
/// characters shared over the distinct characters of the query; 0 over 1
/// when either is empty.
pub open spec fn score_parts_spec(q: Seq<char>, text: Seq<char>) -> (nat, nat) {
    let t = recall_normalized(text);
    if q.len() == 0 || t.len() == 0 {
        (0, 1)
    } else if contains_spec(t, q) || contains_spec(q, t) {
        let lq = utf8_len(q);
        let lt = utf8_len(t);
        (if lq <= lt {
            lq
        } else {
            lt
        }, if lq <= lt {
            lt
        } else {
            lq
        })
    } else {
        (q.to_set().intersect(t.to_set()).len(), q.to_set().len())
    }
}

/// How well `text` matches the already normalised query, as a fraction;
/// the denominator is never 0.
pub fn score_text_parts(normalized_query: &str, text: &str) -> (r: (usize, usize))
    ensures
        r.0 as nat == score_parts_spec(normalized_query@, text@).0,
        r.1 as nat == score_parts_spec(normalized_query@, text@).1,
        r.1 > 0,
{
    let t = normalize_text(text);
    let q = chars_of(normalized_query);
    let tc = chars_of(t.as_str());
    if q.len() == 0 || tc.len() == 0 {
        return (0, 1);
    }
    if contains(&tc, &q) || contains(&q, &tc) {
        let lq = byte_len(normalized_query);
        let lt = byte_len(t.as_str());
        proof {
            crate::text::lemma_utf8_len_positive(q@);
            crate::text::lemma_utf8_len_positive(tc@);
        }
        if lq <= lt {
            return (lq, lt);
        } else {
            return (lt, lq);
        }
    }
    let shared = shared_distinct_count(&q, &tc);
    let dq = crate::text::distinct_chars(&q);
    proof {
        assert(q@.to_set().contains(q@[0]));
        assert(dq@.to_set().contains(q@[0]));
        assert(dq@.len() > 0);
    }
    (shared, dq.len())
}

} // verus!

verus! {

// ---------------------------------------------------------------------------
// Choosing the turns a topic recall quotes.

/// A stored turn with the order key of its match score (a larger key is a
/// better match).
pub struct ScoredTurn {
    pub turn_id: i64,
    pub timestamp: String,
    pub score_key: u64,
}

/// A stored session with its scored turns, in order.
pub struct ScoredSession {
    pub session_id: String,
    pub dialogue_key: String,
    pub turns: Vec<ScoredTurn>,
}

/// A turn that matched the query well enough.
pub struct RecallMatch {
    pub session_id: String,
    pub turn_id: i64,
    pub timestamp: String,
    pub score_key: u64,
}

/// `a` comes after `b` in the order of text (character by character, a
/// longer text after its own prefix), as `>` compares strings.
pub open spec fn text_after(a: Seq<char>, b: Seq<char>) -> bool
    decreases a.len(),
{
    if a.len() == 0 {
        false
    } else if b.len() == 0 {
        true
    } else if a[0] != b[0] {
        (a[0] as u32) > (b[0] as u32)
    } else {
        text_after(a.drop_first(), b.drop_first())
    }
}

/// Whether `a` comes after `b` in the order of text.
pub fn chars_after(a: &[char], b: &[char]) -> (r: bool)
    ensures
        r == text_after(a@, b@),
{
    let mut i: usize = 0;
    proof {
        assert(a@.skip(0) =~= a@);
        assert(b@.skip(0) =~= b@);
    }
    while i < a.len() && i < b.len()
        invariant
            i <= a@.len(),
            i <= b@.len(),
            text_after(a@.skip(i as int), b@.skip(i as int)) == text_after(a@, b@),
        decreases a.len() - i,
    {
        proof {
            assert(a@.skip(i as int)[0] == a@[i as int]);
            assert(b@.skip(i as int)[0] == b@[i as int]);
        }
        if a[i] != b[i] {
            return (a[i] as u32) > (b[i] as u32);
        }
        proof {
            assert(a@.skip(i as int).drop_first() =~= a@.skip(i + 1));
            assert(b@.skip(i as int).drop_first() =~= b@.skip(i + 1));
        }
        i = i + 1;
    }
    i < a.len()
}

/// The turn of `s` as a match.
pub open spec fn as_match(s: ScoredSession, t: ScoredTurn) -> RecallMatch {
    RecallMatch {
        session_id: s.session_id,
        turn_id: t.turn_id,
        timestamp: t.timestamp,
        score_key: t.score_key,
    }
}

/// The first `n` turns of `s` that score at least `min_key`, as matches.
pub open spec fn session_matches(s: ScoredSession, min_key: u64, n: nat) -> Seq<RecallMatch>
    decreases n,
{
    if n == 0 || n > s.turns@.len() {
        Seq::empty()
    } else {
        let prev = session_matches(s, min_key, (n - 1) as nat);
        let t = s.turns@[n - 1];
        if t.score_key >= min_key {
            prev.push(as_match(s, t))
        } else {
            prev
        }
    }
}

/// The matches of the sessions with dialogue key `key` that have turns,
/// the latest session first, each session's turns in order.
pub open spec fn all_matches(ss: Seq<ScoredSession>, key: Seq<char>, min_key: u64) -> Seq<RecallMatch>
    decreases ss.len(),
{
    if ss.len() == 0 {
        Seq::empty()
    } else {
        let s = ss.last();
        (if s.dialogue_key@ == key && s.turns@.len() > 0 {
            session_matches(s, min_key, s.turns@.len())
        } else {
            Seq::empty()
        }) + all_matches(ss.drop_last(), key, min_key)
    }
}

/// `m` is a better match than `l`: a higher score; on equal scores a later
/// time stamp; on equal stamps a higher turn number.
pub open spec fn better_match(m: RecallMatch, l: RecallMatch) -> bool {
    m.score_key > l.score_key || (m.score_key == l.score_key && (text_after(m.timestamp@, l.timestamp@)
        || (m.timestamp@ == l.timestamp@ && m.turn_id > l.turn_id)))
}

/// Index of the best of the first `n` matches, the earliest on a full tie.
pub open spec fn best_index(ms: Seq<RecallMatch>, n: nat) -> int
    decreases n,
{
    if n <= 1 {
        0
    } else {
        let b = best_index(ms, (n - 1) as nat);
        if better_match(ms[n - 1], ms[b]) {
            n - 1
        } else {
            b
        }
    }
}

/// The matches a topic recall quotes: the first match, then the best one
/// where it is another turn (another session or turn number), at most
/// `max(limit, 1)` of them; none where nothing matched.
pub open spec fn recall_picks(ms: Seq<RecallMatch>, limit: usize) -> Seq<RecallMatch> {
    if ms.len() == 0 {
        Seq::empty()
    } else {
        let b = ms[best_index(ms, ms.len())];
        if limit <= 1 || (b.session_id@ == ms[0].session_id@ && b.turn_id == ms[0].turn_id) {
            seq![ms[0]]
        } else {
            seq![ms[0], b]
        }
    }
}

/// The turns a topic recall for `query` quotes from `sessions` (oldest
/// first): nothing where the normalised query has fewer than 2 bytes; else
/// `recall_picks` of the turns of the sessions with `dialogue_key`, the
/// latest session first, that score at least `min_score_key`.
pub fn pick_recall_matches(
    query: &str,
    sessions: &[ScoredSession],
    dialogue_key: &str,
    min_score_key: u64,
    entry_limit: usize,
) -> (r: Vec<RecallMatch>)
    ensures
        utf8_len(recall_normalized(query@)) < 2 ==> r@.len() == 0,
        utf8_len(recall_normalized(query@)) >= 2 ==> r@ == recall_picks(
            all_matches(sessions@, dialogue_key@, min_score_key),
            entry_limit,
        ),
        r@.len() <= 2,
        r@.len() <= (if entry_limit > 1 { entry_limit } else { 1 }),
        forall|i: int|
            0 <= i < r@.len() ==> (#[trigger] r@[i]).score_key >= min_score_key,
{
    let q = normalize_text(query);
    if byte_len(q.as_str()) < 2 {
        return Vec::new();
    }
    let ms = collect_matches(sessions, dialogue_key, min_score_key);
    let ghost all = ms@;
    if ms.len() == 0 {
        return Vec::new();
    }
    let mut best: usize = 0;
    let mut i: usize = 1;
    while i < ms.len()
        invariant
            1 <= i <= ms@.len(),
            ms@ == all,
            best < i,
            best == best_index(all, i as nat),
        decreases ms.len() - i,
    {
        let m = &ms[i];
        let l = &ms[best];
        let better = m.score_key > l.score_key || (m.score_key == l.score_key && (chars_after(
            &chars_of(m.timestamp.as_str()),
            &chars_of(l.timestamp.as_str()),
        ) || (chars_eq(&chars_of(m.timestamp.as_str()), &chars_of(l.timestamp.as_str()))
            && m.turn_id > l.turn_id)));
        if better {
            best = i;
        }
        i = i + 1;
    }
    proof {
        match_keys_above(sessions@, dialogue_key@, min_score_key);
    }
    let first = &ms[0];
    let b = &ms[best];
    let same = chars_eq(&chars_of(b.session_id.as_str()), &chars_of(first.session_id.as_str()))
        && b.turn_id == first.turn_id;
    let mut r: Vec<RecallMatch> = Vec::new();
    r.push(first.duplicate());
    if !(entry_limit <= 1 || same) {
        r.push(b.duplicate());
    }
    proof {
        if entry_limit <= 1 || same {
            assert(r@ =~= seq![all[0]]);
        } else {
            assert(r@ =~= seq![all[0], all[best as int]]);
        }
    }
    r
}

impl RecallMatch {
    /// A copy with equal fields.
    pub fn duplicate(&self) -> (r: Self)
        ensures
            r == *self,
    {
        RecallMatch {
            session_id: self.session_id.clone(),
            turn_id: self.turn_id,
            timestamp: self.timestamp.clone(),
            score_key: self.score_key,
        }
    }
}

/// Every match scores at least the minimum.
proof fn match_keys_above(ss: Seq<ScoredSession>, key: Seq<char>, min_key: u64)
    ensures
        forall|i: int|
            0 <= i < all_matches(ss, key, min_key).len() ==> (#[trigger] all_matches(
                ss,
                key,
                min_key,
            )[i]).score_key >= min_key,
    decreases ss.len(),
{
    if ss.len() > 0 {
        match_keys_above(ss.drop_last(), key, min_key);
        let s = ss.last();
        session_keys_above(s, min_key, s.turns@.len());
        let a = if s.dialogue_key@ == key && s.turns@.len() > 0 {
            session_matches(s, min_key, s.turns@.len())
        } else {
            Seq::empty()
        };
        let rest = all_matches(ss.drop_last(), key, min_key);
        assert(all_matches(ss, key, min_key) == a + rest);
        assert forall|i: int| 0 <= i < (a + rest).len() implies (#[trigger] (a + rest)[i]).score_key
            >= min_key by {
            if i < a.len() {
                assert((a + rest)[i] == a[i]);
            } else {
                assert((a + rest)[i] == rest[i - a.len()]);
            }
        }
    }
}

proof fn session_keys_above(s: ScoredSession, min_key: u64, n: nat)
    ensures
        forall|i: int|
            0 <= i < session_matches(s, min_key, n).len() ==> (#[trigger] session_matches(
                s,
                min_key,
                n,
            )[i]).score_key >= min_key,
    decreases n,
{
    if n > 0 && n <= s.turns@.len() {
        session_keys_above(s, min_key, (n - 1) as nat);
        let prev = session_matches(s, min_key, (n - 1) as nat);
        let cur = session_matches(s, min_key, n);
        assert forall|i: int| 0 <= i < cur.len() implies (#[trigger] cur[i]).score_key >= min_key by {
            if i < prev.len() {
                assert(cur[i] == prev[i]);
            }
        }
    }
}

/// The matches of the sessions, the latest session first.
fn collect_matches(sessions: &[ScoredSession], dialogue_key: &str, min_score_key: u64) -> (r: Vec<
    RecallMatch,
>)
    ensures
        r@ == all_matches(sessions@, dialogue_key@, min_score_key),
{
    let key = chars_of(dialogue_key);
    let mut r: Vec<RecallMatch> = Vec::new();
    let mut k: usize = sessions.len();
    proof {
        assert(sessions@.take(sessions@.len() as int) =~= sessions@);
        assert(all_matches(sessions@, dialogue_key@, min_score_key) =~= Seq::<RecallMatch>::empty()
            + all_matches(sessions@.take(k as int), dialogue_key@, min_score_key));
    }
    while k > 0
        invariant
            k <= sessions@.len(),
            key@ == dialogue_key@,
            r@ + all_matches(sessions@.take(k as int), dialogue_key@, min_score_key) == all_matches(
                sessions@,
                dialogue_key@,
                min_score_key,
            ),
        decreases k,
    {
        let s = &sessions[k - 1];
        let ghost before = r@;
        proof {
            assert(sessions@.take(k as int).last() == *s);
            assert(sessions@.take(k as int).drop_last() =~= sessions@.take(k - 1));
        }
        if chars_eq(&chars_of(s.dialogue_key.as_str()), &key) && s.turns.len() > 0 {
            let mut j: usize = 0;
            while j < s.turns.len()
                invariant
                    j <= s.turns@.len(),
                    r@ == before + session_matches(*s, min_score_key, j as nat),
                decreases s.turns.len() - j,
            {
                let t = &s.turns[j];
                if t.score_key >= min_score_key {
                    let m = RecallMatch {
                        session_id: s.session_id.clone(),
                        turn_id: t.turn_id,
                        timestamp: t.timestamp.clone(),
                        score_key: t.score_key,
                    };
                    proof {
                        assert(m == as_match(*s, s.turns@[j as int]));
                    }
                    r.push(m);
                }
                proof {
                    assert(r@ =~= before + session_matches(*s, min_score_key, (j + 1) as nat));
                }
                j = j + 1;
            }
        }
        proof {
            assert(r@ + all_matches(sessions@.take(k - 1), dialogue_key@, min_score_key) =~= before
                + all_matches(sessions@.take(k as int), dialogue_key@, min_score_key));
        }
        k = k - 1;
    }
    proof {
        assert(sessions@.take(0) =~= Seq::<ScoredSession>::empty());
        assert(r@ + Seq::<RecallMatch>::empty() =~= r@);
    }
    r
}

} // verus!

verus! {

/// Label of the first quoted match.
pub const FIRST_MENTION_LABEL: &'static str = "第一次提到相关话题";

/// Label of the later, best quoted match.
pub const LATEST_MENTION_LABEL: &'static str = "最近一次提到相关话题";

/// The label of the pick at `index`: the first mention, then the latest.
pub fn recall_label(index: usize) -> (r: &'static str)
    ensures
        r@ == (if index == 0 {
            FIRST_MENTION_LABEL@
        } else {
            LATEST_MENTION_LABEL@
        }),
{
    if index == 0 {
        FIRST_MENTION_LABEL
    } else {
        LATEST_MENTION_LABEL
    }
}

} // verus!
