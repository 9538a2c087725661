//! The extraction model's side of the buffer: when to extract, and the
//! dialogue text handed to the model.
use vstd::prelude::*;

use crate::extraction::buffer::{pending_of, upto_of, BufferTurn, BufferView, ExtractionBuffer};
use crate::text::{
    chars_of, concat_chars, decimal, decimal_spec, digit_value, eq_str, is_ascii_digit, string_of,
    trim, trim_end, trim_end_spec, trim_spec,
};

verus! {

/// Buffers dialogue per session and decides when the extraction model is due.
pub struct MemoryExtractor {
    model: String,
    max_retries: usize,
    buffer: ExtractionBuffer,
    extract_every_n_turns: usize,
    max_dialogue_length: usize,
}

/// Lines joined with `\n` between them.
pub open spec fn join_lines(ls: Seq<Seq<char>>) -> Seq<char>
    decreases ls.len(),
{
    if ls.len() == 0 {
        Seq::empty()
    } else if ls.len() == 1 {
        ls[0]
    } else {
        join_lines(ls.drop_last()) + "\n"@ + ls.last()
    }
}

/// The lines one turn contributes: the user's words and the assistant's,
/// each under the turn label `T<id>`, then a blank line.
pub open spec fn turn_lines(t: BufferTurn, user_id: Seq<char>) -> Seq<Seq<char>> {
    let u = trim_spec(t.user@);
    let a = trim_spec(t.assistant@);
    let label = "T"@ + decimal_spec(t.turn_id as nat);
    (if u.len() > 0 {
        seq![label + ": 用户"@ + user_id + ": "@ + u]
    } else {
        Seq::empty()
    }) + (if a.len() > 0 {
        seq![label + ": 助手: "@ + a]
    } else {
        Seq::empty()
    }) + (if u.len() > 0 || a.len() > 0 {
        seq![Seq::<char>::empty()]
    } else {
        Seq::empty()
    })
}

/// Lines of all turns, in order.
pub open spec fn all_turn_lines(turns: Seq<BufferTurn>, user_id: Seq<char>) -> Seq<Seq<char>>
    decreases turns.len(),
{
    if turns.len() == 0 {
        Seq::empty()
    } else {
        all_turn_lines(turns.drop_last(), user_id) + turn_lines(turns.last(), user_id)
    }
}

/// Some turn has user words besides white space.
pub open spec fn has_user_content(turns: Seq<BufferTurn>) -> bool {
    exists|i: int| 0 <= i < turns.len() && trim_spec(#[trigger] turns[i].user@).len() > 0
}

/// Header lines; the label says private or group chat after the last turn.
pub open spec fn dialogue_header(turns: Seq<BufferTurn>, user_id: Seq<char>) -> Seq<Seq<char>> {
    let label = if turns.last().source_message_type@ == "group"@ {
        "群聊"@
    } else {
        "私聊"@
    };
    seq![
        "=== 用户 "@ + user_id + " 的"@ + label + "对话记录 ==="@,
        "下面这些内容同时包含用户发言和助手发言。"@,
        "用户发言是判断记忆的主要来源，助手发言只用于帮助理解上下文，不能直接当成记忆来源。"@,
        "每条前缀里的 Tn 是稳定 turn 标签，输出时必须引用它。"@,
        Seq::<char>::empty(),
    ]
}

/// The dialogue as the extraction model reads it, or `无` when there are no
/// turns or no turn has user words.
pub open spec fn format_dialogue_spec(turns: Seq<BufferTurn>, user_id: Seq<char>) -> Seq<char> {
    if turns.len() == 0 || !has_user_content(turns) {
        "无"@
    } else {
        trim_end_spec(join_lines(dialogue_header(turns, user_id) + all_turn_lines(turns, user_id)))
    }
}

fn cat3(a: &[char], b: &str, c: &[char]) -> (r: Vec<char>)
    ensures
        r@ == a@ + b@ + c@,
{
    let ab = concat_chars(a, &chars_of(b));
    concat_chars(&ab, c)
}

fn join_exec(ls: &Vec<Vec<char>>) -> (r: Vec<char>)
    ensures
        r@ == join_lines(crate::text::views(ls@)),
{
    let ghost vs = crate::text::views(ls@);
    let mut r: Vec<char> = Vec::new();
    let mut i: usize = 0;
    proof {
        assert(vs.take(0) =~= Seq::<Seq<char>>::empty());
    }
    while i < ls.len()
        invariant
            i <= ls@.len(),
            vs == crate::text::views(ls@),
            r@ == join_lines(vs.take(i as int)),
        decreases ls.len() - i,
    {
        proof {
            assert(vs.take(i + 1).drop_last() =~= vs.take(i as int));
            assert(vs[i as int] == ls@[i as int]@);
        }
        if i == 0 {
            r = concat_chars(&r, &ls[i]);
            proof {
                assert(vs.take(1) =~= seq![vs[0]]);
            }
        } else {
            r = cat3(&r, "\n", &ls[i]);
        }
        i = i + 1;
    }
    proof {
        assert(vs.take(vs.len() as int) =~= vs);
    }
    r
}

fn turn_lines_exec(t: &BufferTurn, user_id: &[char], out: &mut Vec<Vec<char>>)
    ensures
        crate::text::views(final(out)@) == crate::text::views(old(out)@) + turn_lines(
            *t,
            user_id@,
        ),
{
    let u = trim(&chars_of(t.user.as_str()));
    let a = trim(&chars_of(t.assistant.as_str()));
    let label = concat_chars(&chars_of("T"), &decimal(t.turn_id));
    let ghost start = crate::text::views(out@);
    let ghost lu: Seq<Seq<char>> = if u@.len() > 0 {
        seq![label@ + ": 用户"@ + user_id@ + ": "@ + u@]
    } else {
        Seq::empty()
    };
    let ghost la: Seq<Seq<char>> = if a@.len() > 0 {
        seq![label@ + ": 助手: "@ + a@]
    } else {
        Seq::empty()
    };
    if u.len() > 0 {
        let x = cat3(&cat3(&label, ": 用户", user_id), ": ", &u);
        out.push(x);
    }
    proof {
        assert(crate::text::views(out@) =~= start + lu);
    }
    if a.len() > 0 {
        let x = cat3(&label, ": 助手: ", &a);
        out.push(x);
    }
    proof {
        assert(crate::text::views(out@) =~= start + lu + la);
    }
    if u.len() > 0 || a.len() > 0 {
        out.push(Vec::new());
    }
    proof {
        assert(crate::text::views(out@) =~= start + turn_lines(*t, user_id@));
    }
}

impl MemoryExtractor {
    /// The extraction model's name.
    pub closed spec fn spec_model(&self) -> Seq<char> {
        self.model@
    }

    /// Attempts the model gets per extraction.
    pub closed spec fn spec_max_retries(&self) -> usize {
        self.max_retries
    }

    /// Pending turns needed before extraction is due.
    pub closed spec fn spec_extract_every_n_turns(&self) -> usize {
        self.extract_every_n_turns
    }

    /// Most turns shown to the model at once.
    pub closed spec fn spec_max_dialogue_length(&self) -> usize {
        self.max_dialogue_length
    }

    /// State of the buffered dialogue.
    pub closed spec fn spec_buffer(&self) -> BufferView {
        self.buffer.view()
    }

    pub closed spec fn wf(&self) -> bool {
        self.buffer.wf()
    }

    /// An extractor for `model`: 3 attempts, due every 5 pending turns, at
    /// most 30 turns shown, with an empty buffer.
    pub fn new(model: &str) -> (e: Self)
        ensures
            e.wf(),
            e.spec_model() == model@,
            e.spec_max_retries() == 3,
            e.spec_extract_every_n_turns() == 5,
            e.spec_max_dialogue_length() == 30,
            e.spec_buffer().turns == Map::<Seq<char>, Seq<BufferTurn>>::empty(),
            e.spec_buffer().extracted_upto == Map::<Seq<char>, usize>::empty(),
    {
        MemoryExtractor {
            model: model.to_string(),
            max_retries: 3,
            buffer: ExtractionBuffer::new(),
            extract_every_n_turns: 5,
            max_dialogue_length: 30,
        }
    }

    /// Sets the extraction interval to `max(n, 1)`.
    pub fn with_extract_every_n_turns(self, n: usize) -> (e: Self)
        ensures
            e.wf() == self.wf(),
            e.spec_extract_every_n_turns() == if n > 1 {
                n
            } else {
                1
            },
            e.spec_model() == self.spec_model(),
            e.spec_max_retries() == self.spec_max_retries(),
            e.spec_max_dialogue_length() == self.spec_max_dialogue_length(),
            e.spec_buffer() == self.spec_buffer(),
    {
        let mut e = self;
        e.extract_every_n_turns = if n > 1 {
            n
        } else {
            1
        };
        e
    }

    /// Sets the number of turns shown to the model to `max(len, 1)`.
    pub fn with_max_dialogue_length(self, len: usize) -> (e: Self)
        ensures
            e.wf() == self.wf(),
            e.spec_max_dialogue_length() == if len > 1 {
                len
            } else {
                1
            },
            e.spec_model() == self.spec_model(),
            e.spec_max_retries() == self.spec_max_retries(),
            e.spec_extract_every_n_turns() == self.spec_extract_every_n_turns(),
            e.spec_buffer() == self.spec_buffer(),
    {
        let mut e = self;
        e.max_dialogue_length = if len > 1 {
            len
        } else {
            1
        };
        e
    }

    /// Buffers one turn (see `ExtractionBuffer::add_dialogue_turn`).
    #[allow(clippy::too_many_arguments)]
    pub fn add_dialogue_turn(
        &mut self,
        user_id: &str,
        user_message: &str,
        assistant_message: &str,
        session_id: &str,
        turn_id: usize,
        dialogue_key: &str,
        message_type: &str,
        group_id: &str,
        message_id: &str,
        narrative_summary: &str,
        source_platform: &str,
    )
        requires
            old(self).wf(),
        ensures
            final(self).wf(),
            final(self).spec_model() == old(self).spec_model(),
            final(self).spec_max_retries() == old(self).spec_max_retries(),
            final(self).spec_extract_every_n_turns() == old(self).spec_extract_every_n_turns(),
            final(self).spec_max_dialogue_length() == old(self).spec_max_dialogue_length(),
            ({
                let key = trim_spec(session_id@);
                let pre = old(self).spec_buffer();
                let post = final(self).spec_buffer();
                if key.len() == 0 {
                    post == pre
                } else {
                    let kept = crate::extraction::buffer::kept_before_push(
                        crate::extraction::buffer::turns_of(pre, key),
                    );
                    &&& post.turns.dom() == pre.turns.dom().insert(key)
                    &&& forall|k: Seq<char>| k != key && pre.turns.dom().contains(k) ==> post.turns[k] == pre.turns[k]
                    &&& post.turns[key].drop_last() == kept
                    &&& post.turns[key].len() == kept.len() + 1
                    &&& crate::extraction::buffer::turn_records(post.turns[key].last(), user_id@,
                        user_message@, assistant_message@, key, turn_id, dialogue_key@, message_type@,
                        group_id@, message_id@, narrative_summary@, source_platform@)
                    &&& post.owner == pre.owner.insert(key, user_id@)
                    &&& post.dialogue_key == pre.dialogue_key.insert(key, dialogue_key@)
                    &&& post.extracted_upto == pre.extracted_upto
                }
            }),
    {
        self.buffer.add_dialogue_turn(
            user_id,
            user_message,
            assistant_message,
            session_id,
            turn_id,
            dialogue_key,
            message_type,
            group_id,
            message_id,
            narrative_summary,
            source_platform,
        );
    }

    /// Whether the session has at least as many pending turns as the interval.
    pub fn should_extract(&self, session_id: &str) -> (r: bool)
        requires
            self.wf(),
        ensures
            r == (pending_of(self.spec_buffer(), trim_spec(session_id@)).len() >= if self.spec_extract_every_n_turns() > 1 {
                self.spec_extract_every_n_turns() as nat
            } else {
                1
            }),
    {
        self.buffer.should_extract(session_id, self.extract_every_n_turns)
    }

    /// Number of pending turns of the session.
    pub fn get_pending_turn_count(&self, session_id: &str) -> (r: usize)
        requires
            self.wf(),
        ensures
            r == pending_of(self.spec_buffer(), trim_spec(session_id@)).len(),
    {
        self.buffer.get_pending_turn_count(session_id)
    }

    /// Forgets one session, or all (see `ExtractionBuffer::clear_buffer`).
    pub fn clear_buffer(&mut self, session_id: Option<&str>)
        requires
            old(self).wf(),
        ensures
            final(self).wf(),
            final(self).spec_model() == old(self).spec_model(),
            final(self).spec_max_retries() == old(self).spec_max_retries(),
            final(self).spec_extract_every_n_turns() == old(self).spec_extract_every_n_turns(),
            final(self).spec_max_dialogue_length() == old(self).spec_max_dialogue_length(),
            match session_id {
                Some(sid) => {
                    let key = trim_spec(sid@);
                    let pre = old(self).spec_buffer();
                    let post = final(self).spec_buffer();
                    if key.len() == 0 {
                        post == pre
                    } else {
                        &&& post.turns == pre.turns.remove(key)
                        &&& post.owner == pre.owner.remove(key)
                        &&& post.dialogue_key == pre.dialogue_key.remove(key)
                        &&& post.extracted_upto == pre.extracted_upto.remove(key)
                    }
                },
                None => {
                    let post = final(self).spec_buffer();
                    &&& post.turns == Map::<Seq<char>, Seq<BufferTurn>>::empty()
                    &&& post.owner == Map::<Seq<char>, Seq<char>>::empty()
                    &&& post.dialogue_key == Map::<Seq<char>, Seq<char>>::empty()
                    &&& post.extracted_upto == Map::<Seq<char>, usize>::empty()
                },
            },
    {
        self.buffer.clear_buffer(session_id);
    }

    /// The dialogue text for the extraction model: a header naming the user
    /// and whether the chat is private or a group (after the last turn),
    /// then for each turn its user and assistant lines labelled `T<id>`;
    /// `无` when there are no turns or no user words.
    pub fn format_dialogue(&self, turns: &[BufferTurn], user_id: &str) -> (r: String)
        ensures
            r@ == format_dialogue_spec(turns@, user_id@),
    {
        proof {
            reveal_strlit("无");
        }
        if turns.len() == 0 {
            return "无".to_string();
        }
        let mut has_user = false;
        let mut lines: Vec<Vec<char>> = Vec::new();
        let last = &turns[turns.len() - 1];
        let label = if eq_str(&chars_of(last.source_message_type.as_str()), "group") {
            "群聊"
        } else {
            "私聊"
        };
        let uid = chars_of(user_id);
        let head = concat_chars(&chars_of("=== 用户 "), &uid);
        let first = cat3(&cat3(&head, " 的", &chars_of(label)), "对话记录 ===", &Vec::new());
        proof {
            assert(first@ =~= "=== 用户 "@ + user_id@ + " 的"@ + label@ + "对话记录 ==="@);
        }
        lines.push(first);
        lines.push(chars_of("下面这些内容同时包含用户发言和助手发言。"));
        lines.push(chars_of("用户发言是判断记忆的主要来源，助手发言只用于帮助理解上下文，不能直接当成记忆来源。"));
        lines.push(chars_of("每条前缀里的 Tn 是稳定 turn 标签，输出时必须引用它。"));
        lines.push(Vec::new());
        let ghost header = crate::text::views(lines@);
        proof {
            assert(header =~= dialogue_header(turns@, user_id@));
        }
        let mut i: usize = 0;
        proof {
            assert(turns@.take(0) =~= Seq::<BufferTurn>::empty());
            assert(crate::text::views(lines@) =~= header + all_turn_lines(turns@.take(0), user_id@));
        }
        while i < turns.len()
            invariant
                i <= turns@.len(),
                uid@ == user_id@,
                crate::text::views(lines@) == header + all_turn_lines(turns@.take(i as int), user_id@),
                has_user == has_user_content(turns@.take(i as int)),
            decreases turns.len() - i,
        {
            let t = &turns[i];
            let ghost before = crate::text::views(lines@);
            turn_lines_exec(t, &uid, &mut lines);
            let u = trim(&chars_of(t.user.as_str()));
            proof {
                assert(turns@.take(i + 1).drop_last() =~= turns@.take(i as int));
                assert(turns@.take(i + 1).last() == *t);
                assert(crate::text::views(lines@) =~= header + all_turn_lines(turns@.take(i + 1), user_id@));
                if u@.len() > 0 {
                    assert(turns@.take(i + 1)[i as int] == *t);
                }
                if has_user_content(turns@.take(i as int)) {
                    let k = choose|k: int| 0 <= k < turns@.take(i as int).len() && trim_spec(#[trigger] turns@.take(i as int)[k].user@).len() > 0;
                    assert(turns@.take(i + 1)[k] == turns@.take(i as int)[k]);
                }
                if has_user_content(turns@.take(i + 1)) && u@.len() == 0 {
                    let k = choose|k: int| 0 <= k < turns@.take(i + 1).len() && trim_spec(#[trigger] turns@.take(i + 1)[k].user@).len() > 0;
                    assert(turns@.take(i as int)[k] == turns@.take(i + 1)[k]);
                }
            }
            if u.len() > 0 {
                has_user = true;
            }
            i = i + 1;
        }
        proof {
            assert(turns@.take(turns@.len() as int) =~= turns@);
        }
        if !has_user {
            return "无".to_string();
        }
        let joined = join_exec(&lines);
        string_of(&trim_end(&joined))
    }
}

} // verus!

verus! {

/// One round of extraction for a session, ready for the model.
pub struct ExtractionRound {
    /// The latest pending turns, in order, at most as many as the model is shown.
    pub visible_turns: Vec<BufferTurn>,
    /// The highest turn number among all pending turns.
    pub latest_turn_id: usize,
    /// The dialogue text of the visible turns.
    pub dialogue_text: String,
}

/// The last `max` of `turns` (all of them where there are fewer).
pub open spec fn latest_turns(turns: Seq<BufferTurn>, max: nat) -> Seq<BufferTurn> {
    if turns.len() > max {
        turns.skip(turns.len() - max)
    } else {
        turns
    }
}

/// The highest turn number among `turns`, 0 where there are none.
pub open spec fn max_turn_id(turns: Seq<BufferTurn>) -> usize
    decreases turns.len(),
{
    if turns.len() == 0 {
        0
    } else {
        let m = max_turn_id(turns.drop_last());
        if turns.last().turn_id > m {
            turns.last().turn_id
        } else {
            m
        }
    }
}

/// A dialogue text holds nothing to extract: blank, or "无".
pub open spec fn blank_dialogue(text: Seq<char>) -> bool {
    trim_spec(text).len() == 0 || trim_spec(text) == "无"@
}

/// What one call of the extraction model came to.
#[derive(PartialEq, Eq, Structural, Clone, Copy, Debug)]
pub enum AttemptOutcome {
    /// The reply was read; it named this many new memories.
    Parsed { memories: usize },
    /// The call failed or its reply could not be read.
    Failed,
}

/// What an extraction round does next.
#[derive(PartialEq, Eq, Structural, Clone, Copy, Debug)]
pub enum ExtractionStep {
    /// Nothing is pending: finish with no memories.
    Skip,
    /// The dialogue holds nothing: mark the session extracted up to this turn
    /// and finish with no memories.
    MarkOnly { upto: usize },
    /// Call the model; `attempt` counts from 0.
    Ask { attempt: usize },
    /// Finish with the memories read; mark the session up to `mark_upto`
    /// when it is set (some memories came back).
    Finish { mark_upto: Option<usize> },
    /// Every attempt failed: finish with no memories, the session unmarked.
    GiveUp,
}

/// The first step of a round: skip when nothing is pending, mark only when
/// the dialogue is blank, else the first call (or giving up at once when no
/// call is allowed).
pub open spec fn first_step_spec(round: Option<(usize, Seq<char>)>, max_retries: usize) -> ExtractionStep {
    match round {
        None => ExtractionStep::Skip,
        Some((latest, text)) => if blank_dialogue(text) {
            ExtractionStep::MarkOnly { upto: latest }
        } else if max_retries == 0 {
            ExtractionStep::GiveUp
        } else {
            ExtractionStep::Ask { attempt: 0 }
        },
    }
}

/// The step after attempt `attempt` came to `outcome`: a read reply ends the
/// round, marking the session only when memories came back; a failure asks
/// again while attempts remain, else gives up.
pub open spec fn next_step_spec(attempt: usize, max_retries: usize, outcome: AttemptOutcome, latest: usize) -> ExtractionStep {
    match outcome {
        AttemptOutcome::Parsed { memories } => ExtractionStep::Finish {
            mark_upto: if memories > 0 {
                Some(latest)
            } else {
                None
            },
        },
        AttemptOutcome::Failed => if attempt + 1 < max_retries {
            ExtractionStep::Ask { attempt: (attempt + 1) as usize }
        } else {
            ExtractionStep::GiveUp
        },
    }
}

impl MemoryExtractor {
    /// Whether an extraction round is due for `session_id`: the trimmed id is
    /// not empty, and the round is forced or enough turns are pending.
    pub fn extraction_due(&self, session_id: &str, force: bool) -> (r: bool)
        requires
            self.wf(),
        ensures
            r == (trim_spec(session_id@).len() > 0 && (force || pending_of(
                self.spec_buffer(),
                trim_spec(trim_spec(session_id@)),
            ).len() >= if self.spec_extract_every_n_turns() > 1 {
                self.spec_extract_every_n_turns() as nat
            } else {
                1
            })),
    {
        let trimmed = trim(&chars_of(session_id));
        if trimmed.len() == 0 {
            return false;
        }
        let key = string_of(&trimmed);
        force || self.should_extract(key.as_str())
    }

    /// The round of extraction for `session_id` on behalf of `user_id`: the
    /// latest pending turns the model is shown, the highest pending turn
    /// number, and their dialogue text; nothing where no turn is pending.
    pub fn prepare_extraction(&self, user_id: &str, session_id: &str) -> (r: Option<ExtractionRound>)
        requires
            self.wf(),
        ensures
            ({
                let pending = pending_of(self.spec_buffer(), trim_spec(session_id@));
                match r {
                    None => pending.len() == 0,
                    Some(round) => {
                        &&& pending.len() > 0
                        &&& round.visible_turns@ == latest_turns(pending, self.spec_max_dialogue_length() as nat)
                        &&& round.latest_turn_id == max_turn_id(pending)
                        &&& round.dialogue_text@ == format_dialogue_spec(round.visible_turns@, user_id@)
                    },
                }
            }),
    {
        let pending = self.buffer.get_pending_turns(session_id);
        let ghost p = pending_of(self.spec_buffer(), trim_spec(session_id@));
        proof {
            assert(pending@.len() == p.len());
            assert forall|k: int| 0 <= k < p.len() implies *pending@[k] == #[trigger] p[k] by {
                assert(pending@.map_values(|t: &BufferTurn| *t)[k] == *pending@[k]);
            }
        }
        if pending.len() == 0 {
            return None;
        }
        let n = pending.len();
        let max = self.max_dialogue_length;
        let from: usize = if n > max {
            n - max
        } else {
            0
        };
        let mut latest: usize = 0;
        let mut i: usize = 0;
        proof {
            assert(p.take(0) =~= Seq::<BufferTurn>::empty());
        }
        while i < n
            invariant
                i <= n,
                n == pending@.len(),
                n == p.len(),
                forall|k: int| 0 <= k < p.len() ==> *pending@[k] == #[trigger] p[k],
                latest == max_turn_id(p.take(i as int)),
            decreases n - i,
        {
            proof {
                assert(p.take(i + 1).drop_last() =~= p.take(i as int));
                assert(p.take(i + 1).last() == p[i as int]);
            }
            if pending[i].turn_id > latest {
                latest = pending[i].turn_id;
            }
            i = i + 1;
        }
        proof {
            assert(p.take(n as int) =~= p);
        }
        let mut visible: Vec<BufferTurn> = Vec::new();
        let mut j: usize = from;
        while j < n
            invariant
                from <= j <= n,
                n == pending@.len(),
                n == p.len(),
                forall|k: int| 0 <= k < p.len() ==> *pending@[k] == #[trigger] p[k],
                visible@ == p.subrange(from as int, j as int),
            decreases n - j,
        {
            visible.push(pending[j].duplicate());
            proof {
                assert(visible@ =~= p.subrange(from as int, j + 1));
            }
            j = j + 1;
        }
        proof {
            assert(visible@ =~= latest_turns(p, max as nat));
        }
        let text = self.format_dialogue(visible.as_slice(), user_id);
        Some(ExtractionRound { visible_turns: visible, latest_turn_id: latest, dialogue_text: text })
    }

    /// How a round of extraction starts, given what `prepare_extraction`
    /// returned.
    pub fn first_step(&self, round: Option<&ExtractionRound>) -> (r: ExtractionStep)
        ensures
            r == first_step_spec(
                match round {
                    Some(x) => Some((x.latest_turn_id, x.dialogue_text@)),
                    None => None,
                },
                self.spec_max_retries(),
            ),
    {
        match round {
            None => ExtractionStep::Skip,
            Some(x) => if Self::is_blank_dialogue(x.dialogue_text.as_str()) {
                ExtractionStep::MarkOnly { upto: x.latest_turn_id }
            } else if self.max_retries == 0 {
                ExtractionStep::GiveUp
            } else {
                ExtractionStep::Ask { attempt: 0 }
            },
        }
    }

    /// The step after call number `attempt` (counted from 0) of a round
    /// whose highest pending turn is `latest_turn_id` came to `outcome`;
    /// at most `max_retries` calls are made in a round.
    pub fn next_step(&self, attempt: usize, outcome: AttemptOutcome, latest_turn_id: usize) -> (r: ExtractionStep)
        requires
            attempt < self.spec_max_retries(),
        ensures
            r == next_step_spec(attempt, self.spec_max_retries(), outcome, latest_turn_id),
            r matches ExtractionStep::Ask { attempt: a } ==> a == attempt + 1 && a < self.spec_max_retries(),
    {
        match outcome {
            AttemptOutcome::Parsed { memories } => ExtractionStep::Finish {
                mark_upto: if memories > 0 {
                    Some(latest_turn_id)
                } else {
                    None
                },
            },
            AttemptOutcome::Failed => if attempt + 1 < self.max_retries {
                ExtractionStep::Ask { attempt: attempt + 1 }
            } else {
                ExtractionStep::GiveUp
            },
        }
    }

    /// Whether a dialogue text holds nothing to extract: blank, or "无".
    pub fn is_blank_dialogue(text: &str) -> (r: bool)
        ensures
            r == blank_dialogue(text@),
    {
        let t = trim(&chars_of(text));
        t.len() == 0 || eq_str(&t, "无")
    }

    /// Records that the session was extracted up to `turn_id` (see
    /// `ExtractionBuffer::mark_session_extracted`).
    pub fn mark_extracted(&mut self, session_id: &str, turn_id: usize)
        requires
            old(self).wf(),
        ensures
            final(self).wf(),
            final(self).spec_model() == old(self).spec_model(),
            final(self).spec_max_retries() == old(self).spec_max_retries(),
            final(self).spec_extract_every_n_turns() == old(self).spec_extract_every_n_turns(),
            final(self).spec_max_dialogue_length() == old(self).spec_max_dialogue_length(),
            ({
                let key = trim_spec(session_id@);
                let pre = old(self).spec_buffer();
                let post = final(self).spec_buffer();
                if key.len() == 0 {
                    post == pre
                } else {
                    &&& post.turns == pre.turns
                    &&& post.owner == pre.owner
                    &&& post.dialogue_key == pre.dialogue_key
                    &&& post.extracted_upto == pre.extracted_upto.insert(
                        key,
                        if upto_of(pre, key) >= turn_id {
                            upto_of(pre, key)
                        } else {
                            turn_id
                        },
                    )
                }
            }),
    {
        self.buffer.mark_session_extracted(session_id, turn_id);
    }
}

} // verus!

verus! {

/// A turn as a memory's related dialogue keeps it.
pub struct DialogueSnapshot {
    pub turn_id: usize,
    pub user: String,
    pub assistant: String,
    pub timestamp: String,
    pub source_message_type: String,
    pub source_group_id: String,
    pub source_message_id: String,
    pub owner_user_id: String,
}

/// When and how a memory was formed.
pub struct EncodingContext {
    /// The hour of the day (UTC), two digits.
    pub hour_of_day: String,
    pub emotional_tone: String,
    pub message_type: String,
}

/// Where a memory drawn from dialogue came from.
pub struct MemoryMetadata {
    pub owner_user_id: String,
    pub dialogue_key: String,
    pub source_session_id: String,
    pub source_dialogue_key: String,
    pub source_turn_start: usize,
    pub source_turn_end: usize,
    pub source_message_ids: Vec<String>,
    pub source_message_id: String,
    pub source_message_type: String,
    pub source_group_id: String,
    pub group_id: String,
    pub related_dialogue: Vec<DialogueSnapshot>,
    pub encoding_context: EncodingContext,
}

/// `s` keeps the fields of `t`.
pub open spec fn snapshot_of(s: DialogueSnapshot, t: BufferTurn) -> bool {
    &&& s.turn_id == t.turn_id
    &&& s.user == t.user
    &&& s.assistant == t.assistant
    &&& s.timestamp == t.timestamp
    &&& s.source_message_type == t.source_message_type
    &&& s.source_group_id == t.source_group_id
    &&& s.source_message_id == t.source_message_id
    &&& s.owner_user_id == t.owner_user_id
}

/// The message ids of the turns that have one (not blank), in order.
pub open spec fn message_ids_of(turns: Seq<BufferTurn>) -> Seq<String>
    decreases turns.len(),
{
    if turns.len() == 0 {
        Seq::empty()
    } else {
        let ids = message_ids_of(turns.drop_last());
        if trim_spec(turns.last().source_message_id@).len() == 0 {
            ids
        } else {
            ids.push(turns.last().source_message_id)
        }
    }
}

/// Two ASCII digits naming an hour of the day, 00 to 23.
pub open spec fn hour_text(h: Seq<char>) -> bool {
    &&& h.len() == 2
    &&& is_ascii_digit(h[0])
    &&& is_ascii_digit(h[1])
    &&& digit_value(h[0]) * 10 + digit_value(h[1]) <= 23
}

/// The metadata of a memory drawn from `turns` (not empty) at hour `hour`.
pub open spec fn metadata_of(
    m: MemoryMetadata,
    owner_user_id: Seq<char>,
    session_id: Seq<char>,
    dialogue_key: Seq<char>,
    turns: Seq<BufferTurn>,
    related: Seq<DialogueSnapshot>,
    hour: Seq<char>,
) -> bool {
    let ids = message_ids_of(turns);
    &&& m.owner_user_id@ == owner_user_id
    &&& m.dialogue_key@ == dialogue_key
    &&& m.source_session_id@ == session_id
    &&& m.source_dialogue_key@ == dialogue_key
    &&& m.source_turn_start == turns[0].turn_id
    &&& m.source_turn_end == turns.last().turn_id
    &&& m.source_message_ids@ == ids
    &&& m.source_message_id@ == (if ids.len() == 0 { Seq::<char>::empty() } else { ids.last()@ })
    &&& m.source_message_type == turns.last().source_message_type
    &&& m.source_group_id == turns.last().source_group_id
    &&& m.group_id == turns.last().source_group_id
    &&& m.related_dialogue@ == related
    &&& m.encoding_context.hour_of_day@ == hour
    &&& m.encoding_context.emotional_tone@ == Seq::<char>::empty()
    &&& m.encoding_context.message_type == turns.last().source_message_type
}

/// Calls `chrono::Utc::now().format("%H")`: the current UTC hour, read from
/// the clock; chrono writes it as two digits, 00 to 23.
#[verifier::external_body]
fn utc_hour() -> (r: String)
    ensures
        hour_text(r@),
{
    chrono::Utc::now().format("%H").to_string()
}

impl MemoryExtractor {
    /// The related dialogue of a memory: each turn's snapshot, in order.
    pub fn build_related_dialogue_snapshot(&self, turns: &[BufferTurn]) -> (r: Vec<DialogueSnapshot>)
        ensures
            r@.len() == turns@.len(),
            forall|i: int| 0 <= i < turns@.len() ==> snapshot_of(#[trigger] r@[i], turns@[i]),
    {
        let mut out: Vec<DialogueSnapshot> = Vec::new();
        let mut i: usize = 0;
        while i < turns.len()
            invariant
                i <= turns@.len(),
                out@.len() == i,
                forall|k: int| 0 <= k < i ==> snapshot_of(#[trigger] out@[k], turns@[k]),
            decreases turns.len() - i,
        {
            let t = &turns[i];
            out.push(
                DialogueSnapshot {
                    turn_id: t.turn_id,
                    user: t.user.clone(),
                    assistant: t.assistant.clone(),
                    timestamp: t.timestamp.clone(),
                    source_message_type: t.source_message_type.clone(),
                    source_group_id: t.source_group_id.clone(),
                    source_message_id: t.source_message_id.clone(),
                    owner_user_id: t.owner_user_id.clone(),
                },
            );
            i = i + 1;
        }
        out
    }

    /// The metadata of a memory drawn from `anchor_turns` at the hour `hour`:
    /// owner, session and dialogue key, the span of turns, the message ids
    /// the turns carry (the last of them on its own), the kind and group of
    /// the last turn, and the related dialogue; nothing without turns.
    pub fn memory_metadata_at(
        owner_user_id: &str,
        session_id: &str,
        dialogue_key: &str,
        anchor_turns: &[BufferTurn],
        related_dialogue: Vec<DialogueSnapshot>,
        hour: String,
    ) -> (r: Option<MemoryMetadata>)
        ensures
            match r {
                None => anchor_turns@.len() == 0,
                Some(m) => anchor_turns@.len() > 0 && metadata_of(
                    m,
                    owner_user_id@,
                    session_id@,
                    dialogue_key@,
                    anchor_turns@,
                    related_dialogue@,
                    hour@,
                ),
            },
    {
        let n = anchor_turns.len();
        if n == 0 {
            return None;
        }
        let mut ids: Vec<String> = Vec::new();
        let mut i: usize = 0;
        proof {
            assert(anchor_turns@.take(0) =~= Seq::<BufferTurn>::empty());
        }
        while i < n
            invariant
                i <= n,
                n == anchor_turns@.len(),
                ids@ == message_ids_of(anchor_turns@.take(i as int)),
            decreases n - i,
        {
            proof {
                assert(anchor_turns@.take(i + 1).drop_last() =~= anchor_turns@.take(i as int));
                assert(anchor_turns@.take(i + 1).last() == anchor_turns@[i as int]);
            }
            let id = &anchor_turns[i].source_message_id;
            if trim(&chars_of(id.as_str())).len() > 0 {
                ids.push(id.clone());
            }
            i = i + 1;
        }
        proof {
            assert(anchor_turns@.take(n as int) =~= anchor_turns@);
        }
        let last_id = if ids.len() == 0 {
            String::new()
        } else {
            ids[ids.len() - 1].clone()
        };
        let first = &anchor_turns[0];
        let last = &anchor_turns[n - 1];
        Some(
            MemoryMetadata {
                owner_user_id: owner_user_id.to_string(),
                dialogue_key: dialogue_key.to_string(),
                source_session_id: session_id.to_string(),
                source_dialogue_key: dialogue_key.to_string(),
                source_turn_start: first.turn_id,
                source_turn_end: last.turn_id,
                source_message_ids: ids,
                source_message_id: last_id,
                source_message_type: last.source_message_type.clone(),
                source_group_id: last.source_group_id.clone(),
                group_id: last.source_group_id.clone(),
                related_dialogue,
                encoding_context: EncodingContext {
                    hour_of_day: hour,
                    emotional_tone: String::new(),
                    message_type: last.source_message_type.clone(),
                },
            },
        )
    }

    /// The metadata of a memory drawn from `anchor_turns` now (see
    /// `memory_metadata_at`); the hour is read from the clock.
    pub fn build_memory_metadata(
        &self,
        owner_user_id: &str,
        session_id: &str,
        dialogue_key: &str,
        anchor_turns: &[BufferTurn],
        related_dialogue: Vec<DialogueSnapshot>,
    ) -> (r: Option<MemoryMetadata>)
        ensures
            match r {
                None => anchor_turns@.len() == 0,
                Some(m) => anchor_turns@.len() > 0 && hour_text(m.encoding_context.hour_of_day@)
                    && metadata_of(
                    m,
                    owner_user_id@,
                    session_id@,
                    dialogue_key@,
                    anchor_turns@,
                    related_dialogue@,
                    m.encoding_context.hour_of_day@,
                ),
            },
    {
        if anchor_turns.len() == 0 {
            return None;
        }
        let hour = utc_hour();
        Self::memory_metadata_at(owner_user_id, session_id, dialogue_key, anchor_turns, related_dialogue, hour)
    }
}

} // verus!

verus! {

/// No turn number among `turns` exceeds their highest.
proof fn lemma_max_turn_id_bounds(turns: Seq<BufferTurn>, i: int)
    requires
        0 <= i < turns.len(),
    ensures
        turns[i].turn_id <= max_turn_id(turns),
    decreases turns.len(),
{
    if i < turns.len() - 1 {
        lemma_max_turn_id_bounds(turns.drop_last(), i);
        assert(turns.drop_last()[i] == turns[i]);
    }
}

/// Marking a session extracted up to the highest pending turn number (as an
/// extraction round does when it is done) leaves no turn of it pending.
pub proof fn law_marking_latest_clears_pending(pre: BufferView, post: BufferView, key: Seq<char>)
    requires
        post.turns == pre.turns,
        post.extracted_upto == pre.extracted_upto.insert(
            key,
            if upto_of(pre, key) >= max_turn_id(pending_of(pre, key)) {
                upto_of(pre, key)
            } else {
                max_turn_id(pending_of(pre, key))
            },
        ),
    ensures
        pending_of(post, key).len() == 0,
{
    let turns = crate::extraction::buffer::turns_of(pre, key);
    let u = upto_of(pre, key);
    let p = |t: BufferTurn| t.turn_id > u;
    let pending = turns.filter(p);
    let u2 = upto_of(post, key);
    assert(crate::extraction::buffer::turns_of(post, key) == turns);
    assert forall|t: int| 0 <= t < turns.len() implies !(#[trigger] turns[t].turn_id > u2) by {
        if turns[t].turn_id > u {
            turns.lemma_filter_contains(p, t);
            let k = choose|k: int| 0 <= k < pending.len() && pending[k] == turns[t];
            lemma_max_turn_id_bounds(pending, k);
        }
    }
    crate::ordering::lemma_filter_none(turns, |t: BufferTurn| t.turn_id > u2);
}

} // verus!

verus! {

/// A round calls the model at most `max_retries` times: a step that asks
/// again moves to the next attempt and stays below `max_retries`, and a
/// round that finishes marks its session exactly when memories came back.
pub proof fn law_extraction_attempts_bounded(
    attempt: usize,
    max_retries: usize,
    outcome: AttemptOutcome,
    latest: usize,
)
    requires
        attempt < max_retries,
    ensures
        next_step_spec(attempt, max_retries, outcome, latest) matches ExtractionStep::Ask {
            attempt: a,
        } ==> a == attempt + 1 && a < max_retries,
        next_step_spec(attempt, max_retries, outcome, latest) matches ExtractionStep::Finish {
            mark_upto: m,
        } ==> (m is Some <==> (outcome matches AttemptOutcome::Parsed { memories } && memories
            > 0)),
        next_step_spec(attempt, max_retries, outcome, latest) is GiveUp ==> outcome is Failed
            && attempt + 1 == max_retries,
{
}

} // verus!
