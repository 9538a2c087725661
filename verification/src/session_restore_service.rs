//! Restoring the thread of earlier sessions of the same dialogue: which
//! sessions qualify and how each is introduced in the prompt.
use vstd::prelude::*;
use crate::text::{
    chars_of, concat_chars, decimal, decimal_i64, decimal_spec, eq_str, signed_decimal_spec,
    string_of, trim, trim_spec,
};

verus! {

/// Where a restored session came from.
pub struct SessionRestoreMeta {
    pub session_id: String,
    pub dialogue_key: String,
    pub closed_at: String,
    pub turn_count: i64,
}

/// A restored session as shown in the prompt.
pub struct SessionRestoreEntry {
    pub content: String,
    pub metadata: SessionRestoreMeta,
}

/// What restoring reads of a stored session.
pub struct SessionRecord {
    pub session_id: String,
    pub dialogue_key: String,
    pub closed_at: String,
    pub updated_at: String,
    pub turn_count: i64,
}

impl SessionRecord {
    /// A copy with equal fields.
    pub fn duplicate(&self) -> (r: Self)
        ensures
            r == *self,
    {
        SessionRecord {
            session_id: self.session_id.clone(),
            dialogue_key: self.dialogue_key.clone(),
            closed_at: self.closed_at.clone(),
            updated_at: self.updated_at.clone(),
            turn_count: self.turn_count,
        }
    }
}

/// The key of a dialogue: `platform:group:id` for a group with an id,
/// else `platform:private:user`.
pub open spec fn dialogue_key_spec(
    user_id: Seq<char>,
    scope_type: Seq<char>,
    scope_id: Seq<char>,
    platform: Seq<char>,
) -> Seq<char> {
    if scope_type == "group"@ && scope_id.len() > 0 {
        platform + ":"@ + scope_type + ":"@ + scope_id
    } else {
        platform + ":private:"@ + user_id
    }
}

/// The key of the dialogue of `user_id` in the given scope on `platform`.
pub fn build_dialogue_key(user_id: &str, scope_type: &str, scope_id: &str, platform: &str) -> (r: String)
    ensures
        r@ == dialogue_key_spec(user_id@, scope_type@, scope_id@, platform@),
{
    let colon = chars_of(":");
    let p = chars_of(platform);
    let sid = chars_of(scope_id);
    if eq_str(&chars_of(scope_type), "group") && sid.len() > 0 {
        let k = concat_chars(
            &concat_chars(&concat_chars(&concat_chars(&p, &colon), &chars_of(scope_type)), &colon),
            &sid,
        );
        proof {
            assert(k@ =~= platform@ + ":"@ + scope_type@ + ":"@ + scope_id@);
        }
        string_of(&k)
    } else {
        let k = concat_chars(&concat_chars(&p, &chars_of(":private:")), &chars_of(user_id));
        proof {
            assert(k@ =~= platform@ + ":private:"@ + user_id@);
        }
        string_of(&k)
    }
}

/// `s` with every `T` turned into a space.
pub open spec fn t_to_space(s: Seq<char>) -> Seq<char> {
    s.map_values(|c: char| if c == 'T' { ' ' } else { c })
}

/// The first `n` characters of `s` (all of them when it is shorter).
pub open spec fn take_chars(s: Seq<char>, n: nat) -> Seq<char> {
    if s.len() <= n {
        s
    } else {
        s.take(n as int)
    }
}

/// How the `index`-th restored session (from 1) is introduced: its label,
/// the minute it closed (or was last updated) when known, its turn count,
/// then the summary.
pub open spec fn restore_entry_text(
    index: nat,
    closed_at: Seq<char>,
    updated_at: Seq<char>,
    turn_count: int,
    summary: Seq<char>,
) -> Seq<char> {
    let label = if index == 1 {
        "上一轮会话"@
    } else {
        "更早一轮会话"@ + decimal_spec((index - 1) as nat)
    };
    let stamp = take_chars(
        t_to_space(
            if closed_at.len() == 0 {
                updated_at
            } else {
                closed_at
            },
        ),
        16,
    );
    let suffix = if stamp.len() == 0 {
        "（"@ + signed_decimal_spec(turn_count) + "轮）"@
    } else {
        "（"@ + stamp + "，"@ + signed_decimal_spec(turn_count) + "轮）"@
    };
    label + suffix + "："@ + summary
}

fn stamp_of(closed_at: &str, updated_at: &str) -> (r: Vec<char>)
    ensures
        r@ == take_chars(
            t_to_space(
                if closed_at@.len() == 0 {
                    updated_at@
                } else {
                    closed_at@
                },
            ),
            16,
        ),
{
    let src = if chars_of(closed_at).len() == 0 {
        chars_of(updated_at)
    } else {
        chars_of(closed_at)
    };
    let ghost mapped = t_to_space(src@);
    let mut out: Vec<char> = Vec::new();
    let mut i: usize = 0;
    while i < src.len() && i < 16
        invariant
            i <= src@.len(),
            i <= 16,
            mapped == t_to_space(src@),
            out@ == mapped.take(i as int),
        decreases src.len() - i,
    {
        let c = if src[i] == 'T' {
            ' '
        } else {
            src[i]
        };
        proof {
            assert(mapped.take(i + 1) =~= mapped.take(i as int).push(c));
        }
        out.push(c);
        i = i + 1;
    }
    proof {
        if src@.len() <= 16 {
            assert(mapped.take(i as int) =~= mapped);
        }
    }
    out
}

/// The text that introduces the `index`-th restored session (from 1).
pub fn format_restore_entry(index: usize, record: &SessionRecord, summary: &str) -> (r: String)
    requires
        index >= 1,
    ensures
        r@ == restore_entry_text(
            index as nat,
            record.closed_at@,
            record.updated_at@,
            record.turn_count as int,
            summary@,
        ),
{
    let label = if index == 1 {
        chars_of("上一轮会话")
    } else {
        concat_chars(&chars_of("更早一轮会话"), &decimal(index - 1))
    };
    let stamp = stamp_of(record.closed_at.as_str(), record.updated_at.as_str());
    let count = decimal_i64(record.turn_count);
    let suffix = if stamp.len() == 0 {
        concat_chars(&concat_chars(&chars_of("（"), &count), &chars_of("轮）"))
    } else {
        concat_chars(
            &concat_chars(
                &concat_chars(&concat_chars(&chars_of("（"), &stamp), &chars_of("，")),
                &count,
            ),
            &chars_of("轮）"),
        )
    };
    let all = concat_chars(&concat_chars(&concat_chars(&label, &suffix), &chars_of("：")), &chars_of(summary));
    proof {
        assert(all@ =~= restore_entry_text(
            index as nat,
            record.closed_at@,
            record.updated_at@,
            record.turn_count as int,
            summary@,
        ));
    }
    string_of(&all)
}

/// A session can be restored into the dialogue `key`: it belongs to it, it
/// was closed, and it has turns.
pub open spec fn restorable(s: SessionRecord, key: Seq<char>) -> bool {
    s.dialogue_key@ == key && trim_spec(s.closed_at@).len() > 0 && s.turn_count > 0
}

/// The sessions to restore: the first `max(limit, 1)` of `sessions`, in
/// their order, that can be restored into `dialogue_key`.
pub fn restore_candidates(sessions: &[SessionRecord], dialogue_key: &str, limit: usize) -> (r: Vec<SessionRecord>)
    ensures
        ({
            let all = sessions@.filter(|s: SessionRecord| restorable(s, dialogue_key@));
            let n = if limit > 1 {
                limit as int
            } else {
                1
            };
            r@ == all.take(if n < all.len() {
                n
            } else {
                all.len() as int
            })
        }),
{
    let cap: usize = if limit > 1 {
        limit
    } else {
        1
    };
    let key = chars_of(dialogue_key);
    let ghost f = |s: SessionRecord| restorable(s, dialogue_key@);
    let mut r: Vec<SessionRecord> = Vec::new();
    let mut i: usize = 0;
    proof {
        assert(sessions@.take(0).filter(f) =~= Seq::<SessionRecord>::empty());
    }
    while i < sessions.len() && r.len() < cap
        invariant
            i <= sessions@.len(),
            cap >= 1,
            key@ == dialogue_key@,
            f == (|s: SessionRecord| restorable(s, dialogue_key@)),
            r@ == sessions@.take(i as int).filter(f),
            r@.len() <= cap,
        decreases sessions.len() - i,
    {
        proof {
            assert(sessions@.take(i + 1).drop_last() =~= sessions@.take(i as int));
            reveal_with_fuel(Seq::filter, 1);
        }
        let s = &sessions[i];
        if eq_str(&key, s.dialogue_key.as_str()) && trim(&chars_of(s.closed_at.as_str())).len() > 0
            && s.turn_count > 0 {
            r.push(s.duplicate());
        }
        i = i + 1;
    }
    proof {
        let all = sessions@.filter(f);
        let pre = sessions@.take(i as int);
        if i == sessions@.len() {
            assert(pre =~= sessions@);
        } else {
            // the cap was reached: the rest of the list only adds later matches
            assert(sessions@ =~= pre + sessions@.skip(i as int));
            Seq::filter_distributes_over_add(pre, sessions@.skip(i as int), f);
            assert(all.take(cap as int) =~= r@);
        }
    }
    r
}

/// The entry for the `index`-th restored session (from 1), unless its
/// summary is empty.
pub fn restore_entry(index: usize, record: &SessionRecord, summary: &str) -> (r: Option<SessionRestoreEntry>)
    requires
        index >= 1,
    ensures
        match r {
            Some(e) => {
                &&& summary@.len() > 0
                &&& e.content@ == restore_entry_text(
                    index as nat,
                    record.closed_at@,
                    record.updated_at@,
                    record.turn_count as int,
                    summary@,
                )
                &&& e.metadata.session_id@ == record.session_id@
                &&& e.metadata.dialogue_key@ == record.dialogue_key@
                &&& e.metadata.closed_at@ == record.closed_at@
                &&& e.metadata.turn_count == record.turn_count
            },
            None => summary@.len() == 0,
        },
{
    if chars_of(summary).len() == 0 {
        return None;
    }
    Some(
        SessionRestoreEntry {
            content: format_restore_entry(index, record, summary),
            metadata: SessionRestoreMeta {
                session_id: record.session_id.clone(),
                dialogue_key: record.dialogue_key.clone(),
                closed_at: record.closed_at.clone(),
                turn_count: record.turn_count,
            },
        },
    )
}

} // verus!
