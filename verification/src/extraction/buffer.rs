//! Session-scoped buffer of dialogue turns that decides when extraction is due.
use vstd::prelude::*;

use crate::str_map::StrMap;
use crate::text::{chars_of, lemma_trim_idempotent, string_of, trim, trim_spec};

verus! {

/// Most turns a session keeps; older ones are dropped first.
pub const MAX_SESSION_TURNS: usize = 200;

/// One buffered round of dialogue (a user message and the assistant's reply).
pub struct BufferTurn {
    pub turn_id: usize,
    pub user: String,
    pub assistant: String,
    pub timestamp: String,
    pub source_message_type: String,
    pub source_group_id: String,
    pub source_message_id: String,
    pub source_platform: String,
    pub owner_user_id: String,
    pub dialogue_key: String,
    pub session_id: String,
    pub narrative_summary: String,
}

impl BufferTurn {
    /// A copy with equal fields.
    pub fn duplicate(&self) -> (r: Self)
        ensures
            r == *self,
    {
        BufferTurn {
            turn_id: self.turn_id,
            user: self.user.clone(),
            assistant: self.assistant.clone(),
            timestamp: self.timestamp.clone(),
            source_message_type: self.source_message_type.clone(),
            source_group_id: self.source_group_id.clone(),
            source_message_id: self.source_message_id.clone(),
            source_platform: self.source_platform.clone(),
            owner_user_id: self.owner_user_id.clone(),
            dialogue_key: self.dialogue_key.clone(),
            session_id: self.session_id.clone(),
            narrative_summary: self.narrative_summary.clone(),
        }
    }
}

/// Turns buffered per session, with each session's owner, dialogue key and
/// the turn up to which extraction has already run.
pub struct ExtractionBuffer {
    session_turns: StrMap<Vec<BufferTurn>>,
    session_owner: StrMap<String>,
    session_dialogue_key: StrMap<String>,
    session_extracted_upto: StrMap<usize>,
}

/// Abstract state of an [`ExtractionBuffer`], keyed by session.
pub struct BufferView {
    pub turns: Map<Seq<char>, Seq<BufferTurn>>,
    pub owner: Map<Seq<char>, Seq<char>>,
    pub dialogue_key: Map<Seq<char>, Seq<char>>,
    pub extracted_upto: Map<Seq<char>, usize>,
}

/// Turns of `key`, or none.
pub open spec fn turns_of(v: BufferView, key: Seq<char>) -> Seq<BufferTurn> {
    if v.turns.dom().contains(key) {
        v.turns[key]
    } else {
        Seq::empty()
    }
}

/// Turn up to which `key` was extracted (0 when never).
pub open spec fn upto_of(v: BufferView, key: Seq<char>) -> usize {
    if v.extracted_upto.dom().contains(key) {
        v.extracted_upto[key]
    } else {
        0
    }
}

/// No session holds more than `MAX_SESSION_TURNS` turns.
pub open spec fn turns_bounded(v: BufferView) -> bool {
    forall|k: Seq<char>| #[trigger] v.turns.dom().contains(k) ==> v.turns[k].len() <= MAX_SESSION_TURNS
}

/// Turns of `key` newer than its extraction mark.
pub open spec fn pending_of(v: BufferView, key: Seq<char>) -> Seq<BufferTurn> {
    turns_of(v, key).filter(|t: BufferTurn| t.turn_id > upto_of(v, key))
}

/// The turns kept before a new one is appended: at most 199 of the latest.
pub open spec fn kept_before_push(turns: Seq<BufferTurn>) -> Seq<BufferTurn> {
    if turns.len() >= 200 {
        turns.skip(turns.len() - 199)
    } else {
        turns
    }
}

/// `t` records the given turn (its timestamp is the clock's, left free).
pub open spec fn turn_records(
    t: BufferTurn,
    user_id: Seq<char>,
    user_message: Seq<char>,
    assistant_message: Seq<char>,
    session_key: Seq<char>,
    turn_id: usize,
    dialogue_key: Seq<char>,
    message_type: Seq<char>,
    group_id: Seq<char>,
    message_id: Seq<char>,
    narrative_summary: Seq<char>,
    source_platform: Seq<char>,
) -> bool {
    &&& t.turn_id == turn_id
    &&& t.user@ == user_message
    &&& t.assistant@ == assistant_message
    &&& t.source_message_type@ == (if message_type.len() == 0 {
        "private"@
    } else {
        message_type
    })
    &&& t.source_group_id@ == group_id
    &&& t.source_message_id@ == message_id
    &&& t.source_platform@ == source_platform
    &&& t.owner_user_id@ == user_id
    &&& t.dialogue_key@ == dialogue_key
    &&& t.session_id@ == session_key
    &&& t.narrative_summary@ == narrative_summary
}

/// Calls `chrono::Utc::now` and renders it with `to_rfc3339`; the text
/// depends on the clock, so nothing is claimed of it.
#[verifier::external_body]
fn now_rfc3339() -> String {
    chrono::Utc::now().to_rfc3339()
}

impl ExtractionBuffer {
    pub closed spec fn view(&self) -> BufferView {
        BufferView {
            turns: self.session_turns.view().map_values(|v: Vec<BufferTurn>| v@),
            owner: self.session_owner.view().map_values(|s: String| s@),
            dialogue_key: self.session_dialogue_key.view().map_values(|s: String| s@),
            extracted_upto: self.session_extracted_upto.view(),
        }
    }

    pub closed spec fn wf(&self) -> bool {
        &&& self.session_turns.wf()
        &&& self.session_owner.wf()
        &&& self.session_dialogue_key.wf()
        &&& self.session_extracted_upto.wf()
        &&& turns_bounded(self.view())
    }

    /// Every session of a well-formed buffer holds at most 200 turns.
    pub proof fn lemma_wf_bounded(&self)
        requires
            self.wf(),
        ensures
            turns_bounded(self.view()),
    {
    }

    /// An empty buffer.
    pub fn new() -> (b: Self)
        ensures
            b.wf(),
            b.view().turns == Map::<Seq<char>, Seq<BufferTurn>>::empty(),
            b.view().owner == Map::<Seq<char>, Seq<char>>::empty(),
            b.view().dialogue_key == Map::<Seq<char>, Seq<char>>::empty(),
            b.view().extracted_upto == Map::<Seq<char>, usize>::empty(),
    {
        let b = ExtractionBuffer {
            session_turns: StrMap::new(),
            session_owner: StrMap::new(),
            session_dialogue_key: StrMap::new(),
            session_extracted_upto: StrMap::new(),
        };
        proof {
            assert(b.view().turns =~= Map::<Seq<char>, Seq<BufferTurn>>::empty());
            assert(b.view().owner =~= Map::<Seq<char>, Seq<char>>::empty());
            assert(b.view().dialogue_key =~= Map::<Seq<char>, Seq<char>>::empty());
        }
        b
    }

    /// Buffers one turn under the trimmed session id, keeping at most the
    /// latest 200 turns of that session; an empty session id is ignored.
    #[allow(clippy::too_many_arguments)]
    pub fn add_dialogue_turn(
        &mut self,
        user_id: &str,
        user_message: &str,
        assistant_message: &str,
        session_id: &str,
        turn_id: usize,
        dialogue_key: &str,
        message_type: &str,
        group_id: &str,
        message_id: &str,
        narrative_summary: &str,
        source_platform: &str,
    )
        requires
            old(self).wf(),
        ensures
            final(self).wf(),
            ({
                let key = trim_spec(session_id@);
                let pre = old(self).view();
                let post = final(self).view();
                if key.len() == 0 {
                    post == pre
                } else {
                    let kept = kept_before_push(turns_of(pre, key));
                    &&& post.turns.dom() == pre.turns.dom().insert(key)
                    &&& forall|k: Seq<char>| k != key && pre.turns.dom().contains(k) ==> post.turns[k] == pre.turns[k]
                    &&& post.turns[key].len() == kept.len() + 1
                    &&& post.turns[key].drop_last() == kept
                    &&& turn_records(post.turns[key].last(), user_id@, user_message@, assistant_message@,
                        key, turn_id, dialogue_key@, message_type@, group_id@, message_id@,
                        narrative_summary@, source_platform@)
                    &&& post.owner == pre.owner.insert(key, user_id@)
                    &&& post.dialogue_key == pre.dialogue_key.insert(key, dialogue_key@)
                    &&& post.extracted_upto == pre.extracted_upto
                }
            }),
            buffer_step(
                old(self).view(),
                BufferEvent::Add {
                    key: trim_spec(session_id@),
                    turn: turns_of(final(self).view(), trim_spec(session_id@)).last(),
                    owner: user_id@,
                    dialogue_key: dialogue_key@,
                },
                final(self).view(),
            ),
    {
        let key = trim(&chars_of(session_id));
        if key.len() == 0 {
            return;
        }
        let ghost pre = self.view();
        let mut turns = match self.session_turns.take(&key) {
            Some(t) => t,
            None => Vec::new(),
        };
        proof {
            assert(turns@ == turns_of(pre, key@));
        }
        if turns.len() >= MAX_SESSION_TURNS {
            let excess = turns.len() - 199;
            let tail = turns.split_off(excess);
            turns = tail;
        }
        let ghost kept = turns@;
        let message_type_text = if message_type.is_empty() {
            "private".to_string()
        } else {
            message_type.to_string()
        };
        let turn = BufferTurn {
            turn_id,
            user: user_message.to_string(),
            assistant: assistant_message.to_string(),
            timestamp: now_rfc3339(),
            source_message_type: message_type_text,
            source_group_id: group_id.to_string(),
            source_message_id: message_id.to_string(),
            source_platform: source_platform.to_string(),
            owner_user_id: user_id.to_string(),
            dialogue_key: dialogue_key.to_string(),
            session_id: string_of(&key),
            narrative_summary: narrative_summary.to_string(),
        };
        turns.push(turn);
        self.session_owner.insert(key.clone(), user_id.to_string());
        self.session_dialogue_key.insert(key.clone(), dialogue_key.to_string());
        self.session_turns.insert(key, turns);
        proof {
            let post = self.view();
            assert(post.turns =~= pre.turns.insert(key@, kept.push(turn)));
            assert(post.owner =~= pre.owner.insert(key@, user_id@));
            assert(post.dialogue_key =~= pre.dialogue_key.insert(key@, dialogue_key@));
            assert(kept.push(turn).drop_last() =~= kept);
            assert(kept.len() <= 199);
            assert forall|k: Seq<char>| #[trigger] post.turns.dom().contains(k) implies post.turns[k].len()
                <= MAX_SESSION_TURNS by {
                if k != key@ {
                    assert(pre.turns.dom().contains(k));
                }
            }
        }
    }

    /// Whether the session has at least `max(1, extract_every_n_turns)` pending turns.
    pub fn should_extract(&self, session_id: &str, extract_every_n_turns: usize) -> (r: bool)
        requires
            self.wf(),
        ensures
            r == (pending_of(self.view(), trim_spec(session_id@)).len() >= if extract_every_n_turns
                > 1 {
                extract_every_n_turns as nat
            } else {
                1
            }),
    {
        let interval = if extract_every_n_turns > 1 {
            extract_every_n_turns
        } else {
            1
        };
        self.get_pending_turn_count(session_id) >= interval
    }

    /// Number of turns buffered for the trimmed session id; never more than
    /// 200, and the same for the id with or without surrounding spaces.
    pub fn get_turn_count(&self, session_id: &str) -> (r: usize)
        requires
            self.wf(),
        ensures
            r == turns_of(self.view(), trim_spec(session_id@)).len(),
            r == turns_of(self.view(), trim_spec(trim_spec(session_id@))).len(),
            r <= MAX_SESSION_TURNS,
    {
        proof {
            lemma_trim_idempotent(session_id@);
        }
        let key = trim(&chars_of(session_id));
        match self.session_turns.get(&key) {
            Some(t) => t.len(),
            None => 0,
        }
    }

    /// Number of turns of the trimmed session id newer than its extraction mark.
    pub fn get_pending_turn_count(&self, session_id: &str) -> (r: usize)
        requires
            self.wf(),
        ensures
            r == pending_of(self.view(), trim_spec(session_id@)).len(),
    {
        self.get_pending_turns(session_id).len()
    }

    /// Turns of the trimmed session id newer than its extraction mark, in order.
    pub fn get_pending_turns(&self, session_id: &str) -> (r: Vec<&BufferTurn>)
        requires
            self.wf(),
        ensures
            r@.map_values(|t: &BufferTurn| *t) == pending_of(self.view(), trim_spec(session_id@)),
    {
        let key = trim(&chars_of(session_id));
        let ghost v = self.view();
        let turns = match self.session_turns.get(&key) {
            Some(t) => t,
            None => {
                let r: Vec<&BufferTurn> = Vec::new();
                proof {
                    assert(turns_of(v, key@) =~= Seq::<BufferTurn>::empty());
                    assert(pending_of(v, key@) =~= Seq::<BufferTurn>::empty());
                    assert(r@.map_values(|t: &BufferTurn| *t) =~= Seq::<BufferTurn>::empty());
                }
                return r;
            },
        };
        let upto: usize = match self.session_extracted_upto.get(&key) {
            Some(u) => *u,
            None => 0,
        };
        let ghost all = turns@;
        proof {
            assert(all == turns_of(v, key@));
            assert(upto == upto_of(v, key@));
        }
        let mut r: Vec<&BufferTurn> = Vec::new();
        let mut i: usize = 0;
        proof {
            assert(all.take(0).filter(|t: BufferTurn| t.turn_id > upto) =~= Seq::<BufferTurn>::empty());
            assert(r@.map_values(|t: &BufferTurn| *t) =~= Seq::<BufferTurn>::empty());
        }
        while i < turns.len()
            invariant
                i <= all.len(),
                all == turns@,
                r@.map_values(|t: &BufferTurn| *t) == all.take(i as int).filter(
                    |t: BufferTurn| t.turn_id > upto,
                ),
            decreases turns.len() - i,
        {
            let t = &turns[i];
            proof {
                assert(all.take(i + 1).drop_last() =~= all.take(i as int));
                reveal_with_fuel(Seq::filter, 1);
            }
            if t.turn_id > upto {
                let ghost before = r@;
                r.push(t);
                proof {
                    assert(r@.map_values(|t: &BufferTurn| *t) =~= before.map_values(
                        |t: &BufferTurn| *t,
                    ).push(*t));
                }
            }
            i = i + 1;
        }
        proof {
            assert(all.take(all.len() as int) =~= all);
        }
        r
    }

    /// Records that the trimmed session was extracted up to `turn_id`; the
    /// mark never moves back. An empty session id is ignored.
    pub fn mark_session_extracted(&mut self, session_id: &str, turn_id: usize)
        requires
            old(self).wf(),
        ensures
            final(self).wf(),
            ({
                let key = trim_spec(session_id@);
                let pre = old(self).view();
                let post = final(self).view();
                if key.len() == 0 {
                    post == pre
                } else {
                    &&& post.turns == pre.turns
                    &&& post.owner == pre.owner
                    &&& post.dialogue_key == pre.dialogue_key
                    &&& post.extracted_upto == pre.extracted_upto.insert(
                        key,
                        if upto_of(pre, key) >= turn_id {
                            upto_of(pre, key)
                        } else {
                            turn_id
                        },
                    )
                }
            }),
            buffer_step(
                old(self).view(),
                BufferEvent::Mark { key: trim_spec(session_id@), upto: turn_id },
                final(self).view(),
            ),
    {
        let key = trim(&chars_of(session_id));
        if key.len() == 0 {
            return;
        }
        let current: usize = match self.session_extracted_upto.get(&key) {
            Some(u) => *u,
            None => 0,
        };
        let next = if current >= turn_id {
            current
        } else {
            turn_id
        };
        let ghost pre = self.view();
        self.session_extracted_upto.insert(key, next);
        proof {
            assert(self.view().turns =~= pre.turns);
        }
    }

    /// Dialogue key recorded for the session key (taken as given), or "".
    pub fn get_dialogue_key(&self, session_key: &str) -> (r: &str)
        requires
            self.wf(),
        ensures
            r@ == (if self.view().dialogue_key.dom().contains(session_key@) {
                self.view().dialogue_key[session_key@]
            } else {
                Seq::<char>::empty()
            }),
    {
        match self.session_dialogue_key.get(&chars_of(session_key)) {
            Some(s) => s.as_str(),
            None => {
                proof {
                    reveal_strlit("");
                }
                ""
            },
        }
    }

    /// Owner recorded for the session key (taken as given), or "".
    pub fn get_session_owner(&self, session_key: &str) -> (r: &str)
        requires
            self.wf(),
        ensures
            r@ == (if self.view().owner.dom().contains(session_key@) {
                self.view().owner[session_key@]
            } else {
                Seq::<char>::empty()
            }),
    {
        match self.session_owner.get(&chars_of(session_key)) {
            Some(s) => s.as_str(),
            None => {
                proof {
                    reveal_strlit("");
                }
                ""
            },
        }
    }

    /// Forgets one trimmed session (an empty id does nothing), or every session.
    pub fn clear_buffer(&mut self, session_id: Option<&str>)
        requires
            old(self).wf(),
        ensures
            final(self).wf(),
            match session_id {
                Some(sid) => {
                    let key = trim_spec(sid@);
                    let pre = old(self).view();
                    let post = final(self).view();
                    if key.len() == 0 {
                        post == pre
                    } else {
                        &&& post.turns == pre.turns.remove(key)
                        &&& post.owner == pre.owner.remove(key)
                        &&& post.dialogue_key == pre.dialogue_key.remove(key)
                        &&& post.extracted_upto == pre.extracted_upto.remove(key)
                    }
                },
                None => {
                    let post = final(self).view();
                    &&& post.turns == Map::<Seq<char>, Seq<BufferTurn>>::empty()
                    &&& post.owner == Map::<Seq<char>, Seq<char>>::empty()
                    &&& post.dialogue_key == Map::<Seq<char>, Seq<char>>::empty()
                    &&& post.extracted_upto == Map::<Seq<char>, usize>::empty()
                },
            },
            buffer_step(
                old(self).view(),
                BufferEvent::Clear {
                    session: match session_id {
                        Some(sid) => Some(trim_spec(sid@)),
                        None => None,
                    },
                },
                final(self).view(),
            ),
    {
        match session_id {
            Some(sid) => {
                let key = trim(&chars_of(sid));
                if key.len() == 0 {
                    return;
                }
                let ghost pre = self.view();
                let _ = self.session_turns.take(&key);
                let _ = self.session_owner.take(&key);
                let _ = self.session_dialogue_key.take(&key);
                let _ = self.session_extracted_upto.take(&key);
                proof {
                    let post = self.view();
                    assert(post.turns =~= pre.turns.remove(key@));
                    assert(post.owner =~= pre.owner.remove(key@));
                    assert(post.dialogue_key =~= pre.dialogue_key.remove(key@));
                    assert forall|k: Seq<char>| #[trigger] post.turns.dom().contains(k) implies post.turns[k].len()
                        <= MAX_SESSION_TURNS by {
                        assert(pre.turns.dom().contains(k));
                    }
                }
            },
            None => {
                self.session_turns.clear();
                self.session_owner.clear();
                self.session_dialogue_key.clear();
                self.session_extracted_upto.clear();
                proof {
                    let post = self.view();
                    assert(post.turns =~= Map::<Seq<char>, Seq<BufferTurn>>::empty());
                    assert(post.owner =~= Map::<Seq<char>, Seq<char>>::empty());
                    assert(post.dialogue_key =~= Map::<Seq<char>, Seq<char>>::empty());
                }
            },
        }
    }
}

} // verus!

verus! {

/// Whatever sequence of calls built a buffer (every operation keeps it
/// well formed), each of its sessions holds at most 200 turns.
pub proof fn law_buffer_sessions_bounded(b: &ExtractionBuffer)
    requires
        b.wf(),
    ensures
        turns_bounded(b.view()),
{
    b.lemma_wf_bounded();
}

/// Before a turn is appended, a session keeps at most its latest 199
/// turns, so no session ever holds more than 200.
pub proof fn law_kept_turns_bounded(turns: Seq<BufferTurn>)
    ensures
        kept_before_push(turns).len() + 1 <= MAX_SESSION_TURNS,
        kept_before_push(turns) == turns.skip(turns.len() - kept_before_push(turns).len()),
{
    if turns.len() < 200 {
        assert(turns.skip(0) =~= turns);
    }
}

} // verus!

verus! {

// ---------------------------------------------------------------------------
// Histories of calls.

/// One call on a buffer, with the trimmed session key it acted on.
pub enum BufferEvent {
    /// `add_dialogue_turn`: the turn appended, its owner and dialogue key.
    Add { key: Seq<char>, turn: BufferTurn, owner: Seq<char>, dialogue_key: Seq<char> },
    /// `mark_session_extracted`.
    Mark { key: Seq<char>, upto: usize },
    /// `clear_buffer` of one session, or of every session.
    Clear { session: Option<Seq<char>> },
}

/// `post` is what the call `e` makes of `pre`, as the calls state it.
pub open spec fn buffer_step(pre: BufferView, e: BufferEvent, post: BufferView) -> bool {
    match e {
        BufferEvent::Add { key, turn, owner, dialogue_key } => if key.len() == 0 {
            post == pre
        } else {
            &&& post.turns.dom() == pre.turns.dom().insert(key)
            &&& forall|k: Seq<char>| k != key && pre.turns.dom().contains(k) ==> post.turns[k] == pre.turns[k]
            &&& post.turns[key] == kept_before_push(turns_of(pre, key)).push(turn)
            &&& post.owner == pre.owner.insert(key, owner)
            &&& post.dialogue_key == pre.dialogue_key.insert(key, dialogue_key)
        },
        BufferEvent::Mark { key, upto } => {
            &&& post.turns == pre.turns
            &&& post.owner == pre.owner
            &&& post.dialogue_key == pre.dialogue_key
        },
        BufferEvent::Clear { session } => match session {
            Some(k) => if k.len() == 0 {
                post == pre
            } else {
                &&& post.turns == pre.turns.remove(k)
                &&& post.owner == pre.owner.remove(k)
                &&& post.dialogue_key == pre.dialogue_key.remove(k)
            },
            None => {
                &&& post.turns == Map::<Seq<char>, Seq<BufferTurn>>::empty()
                &&& post.owner == Map::<Seq<char>, Seq<char>>::empty()
                &&& post.dialogue_key == Map::<Seq<char>, Seq<char>>::empty()
            },
        },
    }
}

/// The turns added to session `k` since it (or every session) was last
/// cleared, in order.
pub open spec fn added_since_clear(events: Seq<BufferEvent>, k: Seq<char>) -> Seq<BufferTurn>
    decreases events.len(),
{
    if events.len() == 0 {
        Seq::empty()
    } else {
        let before = added_since_clear(events.drop_last(), k);
        match events.last() {
            BufferEvent::Add { key, turn, .. } => if key == k && key.len() > 0 {
                before.push(turn)
            } else {
                before
            },
            BufferEvent::Mark { .. } => before,
            BufferEvent::Clear { session } => match session {
                Some(c) => if c == k {
                    Seq::empty()
                } else {
                    before
                },
                None => Seq::empty(),
            },
        }
    }
}

/// The owner and dialogue key of the last turn added to session `k` since
/// it (or every session) was last cleared.
pub open spec fn last_added_labels(events: Seq<BufferEvent>, k: Seq<char>) -> Option<(Seq<char>, Seq<char>)>
    decreases events.len(),
{
    if events.len() == 0 {
        None
    } else {
        let before = last_added_labels(events.drop_last(), k);
        match events.last() {
            BufferEvent::Add { key, owner, dialogue_key, .. } => if key == k && key.len() > 0 {
                Some((owner, dialogue_key))
            } else {
                before
            },
            BufferEvent::Mark { .. } => before,
            BufferEvent::Clear { session } => match session {
                Some(c) => if c == k {
                    None
                } else {
                    before
                },
                None => None,
            },
        }
    }
}

/// The last `n` of `s` (all of them when fewer).
pub open spec fn last_n(s: Seq<BufferTurn>, n: nat) -> Seq<BufferTurn> {
    if s.len() <= n {
        s
    } else {
        s.skip(s.len() - n)
    }
}

/// A label map's entry for `k`, if any.
pub open spec fn label_of(m: Map<Seq<char>, Seq<char>>, k: Seq<char>) -> Option<Seq<char>> {
    if m.dom().contains(k) {
        Some(m[k])
    } else {
        None
    }
}

/// The buffer holds what the history `events` put there: for every key, the
/// last 200 turns added since its last clear, in order, and the owner and
/// dialogue key of the last of them (none where nothing was added).
pub open spec fn matches_history(v: BufferView, events: Seq<BufferEvent>) -> bool {
    forall|k: Seq<char>|
        #![trigger turns_of(v, k)]
        #![trigger label_of(v.owner, k)]
        #![trigger label_of(v.dialogue_key, k)]
        {
            &&& turns_of(v, k) == last_n(added_since_clear(events, k), MAX_SESSION_TURNS as nat)
            &&& label_of(v.owner, k) == match last_added_labels(events, k) {
                Some(l) => Some(l.0),
                None => None,
            }
            &&& label_of(v.dialogue_key, k) == match last_added_labels(events, k) {
                Some(l) => Some(l.1),
                None => None,
            }
        }
}

/// An empty buffer holds what no call put there.
pub proof fn law_empty_buffer_matches_no_history(v: BufferView)
    requires
        v.turns == Map::<Seq<char>, Seq<BufferTurn>>::empty(),
        v.owner == Map::<Seq<char>, Seq<char>>::empty(),
        v.dialogue_key == Map::<Seq<char>, Seq<char>>::empty(),
    ensures
        matches_history(v, Seq::empty()),
{
}

/// Nothing is ever added under the empty key.
proof fn lemma_empty_key_never_added(events: Seq<BufferEvent>)
    ensures
        added_since_clear(events, Seq::empty()).len() == 0,
        last_added_labels(events, Seq::empty()) is None,
    decreases events.len(),
{
    if events.len() > 0 {
        lemma_empty_key_never_added(events.drop_last());
    }
}

/// Keeping at most 199 turns and appending one keeps the last 200 added.
proof fn lemma_push_keeps_last(s: Seq<BufferTurn>, t: BufferTurn)
    ensures
        kept_before_push(last_n(s, 200)).push(t) == last_n(s.push(t), 200),
{
    if s.len() >= 200 {
        assert(last_n(s, 200).skip(1) =~= s.skip(s.len() - 199));
        assert(kept_before_push(last_n(s, 200)) =~= s.skip(s.len() - 199));
        assert(s.skip(s.len() - 199).push(t) =~= s.push(t).skip(s.len() + 1 - 200));
    }
}

/// Whatever calls built a buffer, each call keeps it holding what its
/// history put there: every session's stored turns are exactly the last 200
/// turns added since it was last cleared, in order, and its owner and
/// dialogue key are those of the last turn added since then (none where no
/// turn was added).
pub proof fn law_buffer_follows_history(
    events: Seq<BufferEvent>,
    pre: BufferView,
    e: BufferEvent,
    post: BufferView,
)
    requires
        matches_history(pre, events),
        buffer_step(pre, e, post),
    ensures
        matches_history(post, events.push(e)),
{
    let evs = events.push(e);
    assert(evs.drop_last() =~= events);
    assert(evs.last() == e);
    assert forall|k: Seq<char>| true implies {
        &&& #[trigger] turns_of(post, k) == last_n(added_since_clear(evs, k), MAX_SESSION_TURNS as nat)
        &&& label_of(post.owner, k) == match last_added_labels(evs, k) {
            Some(l) => Some(l.0),
            None => None,
        }
        &&& label_of(post.dialogue_key, k) == match last_added_labels(evs, k) {
            Some(l) => Some(l.1),
            None => None,
        }
    } by {
        assert(turns_of(pre, k) == last_n(added_since_clear(events, k), MAX_SESSION_TURNS as nat));
        assert(label_of(pre.owner, k) == label_of(pre.owner, k));
        assert(label_of(pre.dialogue_key, k) == label_of(pre.dialogue_key, k));
        match e {
            BufferEvent::Add { key, turn, owner, dialogue_key } => {
                if key.len() > 0 && key == k {
                    lemma_push_keeps_last(added_since_clear(events, k), turn);
                }
            },
            BufferEvent::Mark { .. } => {},
            BufferEvent::Clear { session } => {
                match session {
                    Some(c) => {
                        if c == k && c.len() == 0 {
                            assert(k =~= Seq::<char>::empty());
                            lemma_empty_key_never_added(events);
                        }
                    },
                    None => {},
                }
            },
        }
    }
}

} // verus!
