//! Keys that recognise a reply already handed to the memory flow, and the
//! short window in which a repeated reply is ignored.
use vstd::prelude::*;
use sha2::Digest;
use crate::str_map::{at_least, StrMap};
use crate::text::{chars_of, concat_chars, is_ws, string_of, sub_chars, trim, trim_spec};

verus! {

/// What `sha2::Sha256` yields over the UTF-8 bytes of `payload`, written
/// as lower-case hexadecimal.
pub uninterp spec fn sha256_hex_of(payload: Seq<char>) -> Seq<char>;

/// A lower-case hexadecimal digit.
pub open spec fn is_lower_hex(c: char) -> bool {
    ('0' <= c && c <= '9') || ('a' <= c && c <= 'f')
}

/// Hashes the UTF-8 bytes of `payload` with `sha2::Sha256` and formats the
/// 32-byte digest with `{:x}` (generic-array's `LowerHex`: two lower-case
/// hex digits per byte). The contract names the digest and states its shape.
#[verifier::external_body]
fn sha256_hex(payload: &str) -> (r: String)
    ensures
        r@ == sha256_hex_of(payload@),
        r@.len() == 64,
        forall|i: int| 0 <= i < 64 ==> is_lower_hex(#[trigger] r@[i]),
{
    let mut hasher = sha2::Sha256::new();
    hasher.update(payload.as_bytes());
    format!("{:x}", hasher.finalize())
}

/// Calls `chrono::Utc::now().timestamp()`: seconds since the Unix epoch,
/// read from the clock, so nothing is claimed of it.
#[verifier::external_body]
fn now_unix_seconds() -> u64 {
    chrono::Utc::now().timestamp() as u64
}

/// The text that identifies a reply: session, message, user text and reply
/// joined by `|`.
pub open spec fn dedupe_payload(
    session_key: Seq<char>,
    message_id: Seq<char>,
    user_message: Seq<char>,
    reply_text: Seq<char>,
) -> Seq<char> {
    session_key + "|"@ + message_id + "|"@ + user_message + "|"@ + reply_text
}

/// The key of a reply: the SHA-256 digest of its payload in hexadecimal
/// (the payload always holds its separators, so it is never blank).
pub fn build_dedupe_key(session_key: &str, message_id: &str, user_message: &str, reply_text: &str) -> (r: String)
    ensures
        r@ == sha256_hex_of(dedupe_payload(session_key@, message_id@, user_message@, reply_text@)),
        r@.len() == 64,
{
    let bar = chars_of("|");
    let payload = concat_chars(
        &concat_chars(
            &concat_chars(
                &concat_chars(
                    &concat_chars(&concat_chars(&chars_of(session_key), &bar), &chars_of(message_id)),
                    &bar,
                ),
                &chars_of(user_message),
            ),
            &bar,
        ),
        &chars_of(reply_text),
    );
    let text = crate::text::string_of(&payload);
    proof {
        reveal_strlit("|");
        assert(payload@ =~= dedupe_payload(session_key@, message_id@, user_message@, reply_text@));
    }
    if trim(&payload).len() == 0 {
        proof {
            let k = session_key@.len() as int;
            assert(payload@[k] == '|');
            assert(!is_ws('|'));
            crate::text::lemma_trim_keeps_non_ws(payload@, k);
        }
        return String::new();
    }
    sha256_hex(text.as_str())
}

/// Whether a reply carries something to remember: text or an image description.
pub fn has_reply_content(user_message: &str, image_description: &str) -> (r: bool)
    ensures
        r == (trim_spec(user_message@).len() > 0 || trim_spec(image_description@).len() > 0),
{
    trim(&chars_of(user_message)).len() > 0 || trim(&chars_of(image_description)).len() > 0
}

/// Seconds during which a repeated reply key is ignored.
pub const DEDUPE_WINDOW_SECS: u64 = 30;

/// Reply keys seen recently, with the second at which each was recorded.
pub struct RecentReplyKeys {
    keys: StrMap<u64>,
}

/// The earliest second still inside the window that ends at `now`.
pub open spec fn window_start(now: u64) -> u64 {
    if now >= 30 {
        (now - 30) as u64
    } else {
        0
    }
}

impl RecentReplyKeys {
    /// Keys and the seconds at which they were recorded.
    pub closed spec fn view(&self) -> Map<Seq<char>, u64> {
        self.keys@
    }

    pub closed spec fn wf(&self) -> bool {
        self.keys.wf()
    }

    /// No key seen yet.
    pub fn new() -> (r: Self)
        ensures
            r.wf(),
            r@ == Map::<Seq<char>, u64>::empty(),
    {
        RecentReplyKeys { keys: StrMap::new() }
    }

    /// At second `now`: forgets keys recorded before the window, then
    /// reports whether `dedupe_key` is still remembered; if it is not, it
    /// is recorded at `now`. An empty key is never a repeat.
    pub fn check_dedupe_timestamp(&mut self, dedupe_key: &str, now: u64) -> (r: bool)
        requires
            old(self).wf(),
        ensures
            final(self).wf(),
            dedupe_key@.len() == 0 ==> !r && final(self)@ == old(self)@,
            dedupe_key@.len() > 0 ==> {
                let kept = at_least(old(self)@, window_start(now));
                &&& r == kept.dom().contains(dedupe_key@)
                &&& final(self)@ == (if r {
                    kept
                } else {
                    kept.insert(dedupe_key@, now)
                })
            },
    {
        let key = chars_of(dedupe_key);
        if key.len() == 0 {
            return false;
        }
        let expire_before = if now >= DEDUPE_WINDOW_SECS {
            now - DEDUPE_WINDOW_SECS
        } else {
            0
        };
        self.keys.retain_at_least(expire_before);
        if self.keys.get(&key).is_some() {
            return true;
        }
        self.keys.insert(key, now);
        false
    }

    /// Whether `dedupe_key` was seen within the last 30 seconds of the
    /// clock; it is recorded when it was not. Whatever the clock reads, an
    /// empty key is never a repeat, a non-empty one is remembered afterwards,
    /// and only a key remembered before can be a repeat.
    pub fn should_dedupe(&mut self, dedupe_key: &str) -> (r: bool)
        requires
            old(self).wf(),
        ensures
            final(self).wf(),
            dedupe_key@.len() == 0 ==> !r && final(self)@ == old(self)@,
            dedupe_key@.len() > 0 ==> final(self)@.dom().contains(dedupe_key@),
            r ==> old(self)@.dom().contains(dedupe_key@),
    {
        let now = now_unix_seconds();
        self.check_dedupe_timestamp(dedupe_key, now)
    }
}

} // verus!

verus! {

/// A key newly recorded at second `t1` is recognised as a repeat at every
/// second `t2` from `t1` to `t1 + 30`.
pub proof fn law_recorded_key_repeats_within_window(
    seen: Map<Seq<char>, u64>,
    key: Seq<char>,
    t1: u64,
    t2: u64,
)
    requires
        !at_least(seen, window_start(t1)).dom().contains(key),
        t1 <= t2,
        t2 - t1 <= 30,
    ensures
        at_least(at_least(seen, window_start(t1)).insert(key, t1), window_start(t2)).dom().contains(
            key,
        ),
{
}

/// A key last recorded before the window that ends at `now` is no repeat.
pub proof fn law_expired_key_is_no_repeat(seen: Map<Seq<char>, u64>, key: Seq<char>, now: u64)
    requires
        seen.dom().contains(key),
        seen[key] < window_start(now),
    ensures
        !at_least(seen, window_start(now)).dom().contains(key),
{
}

} // verus!

verus! {

// ---------------------------------------------------------------------------
// What a registered dialogue turn hands on.

/// At most the first `n` characters of `s`.
pub open spec fn first_n(s: Seq<char>, n: nat) -> Seq<char> {
    if s.len() <= n {
        s
    } else {
        s.take(n as int)
    }
}

/// The narrative event of a turn: the first 100 characters of the user's
/// message and of the reply.
pub open spec fn narrative_event_spec(user_message: Seq<char>, assistant_message: Seq<char>) -> Seq<char> {
    "用户: "@ + first_n(user_message, 100) + ", 回复: "@ + first_n(assistant_message, 100)
}

fn first_chars(s: &str, n: usize) -> (r: Vec<char>)
    ensures
        r@ == first_n(s@, n as nat),
{
    let c = chars_of(s);
    let k = if c.len() <= n {
        c.len()
    } else {
        n
    };
    proof {
        assert(c@.subrange(0, c@.len() as int) =~= c@);
    }
    sub_chars(&c, 0, k)
}

/// The narrative event recorded for a dialogue turn.
pub fn narrative_event_text(user_message: &str, assistant_message: &str) -> (r: String)
    ensures
        r@ == narrative_event_spec(user_message@, assistant_message@),
{
    let head = concat_chars(&chars_of("用户: "), &first_chars(user_message, 100));
    let tail = concat_chars(&chars_of(", 回复: "), &first_chars(assistant_message, 100));
    string_of(&concat_chars(&head, &tail))
}

/// The interaction signals a dialogue turn records: the warmth guidance,
/// then the user's emotion label, each only where it is not empty.
pub fn interaction_signals(warmth_guidance: &str, user_emotion_label: &str) -> (r: Vec<String>)
    ensures
        r@.map_values(|s: String| s@) == (if warmth_guidance@.len() > 0 {
            seq![warmth_guidance@]
        } else {
            Seq::<Seq<char>>::empty()
        }) + (if user_emotion_label@.len() > 0 {
            seq![user_emotion_label@]
        } else {
            Seq::<Seq<char>>::empty()
        }),
{
    let mut r: Vec<String> = Vec::new();
    if chars_of(warmth_guidance).len() > 0 {
        r.push(warmth_guidance.to_string());
    }
    if chars_of(user_emotion_label).len() > 0 {
        r.push(user_emotion_label.to_string());
    }
    proof {
        assert(r@.map_values(|s: String| s@) =~= (if warmth_guidance@.len() > 0 {
            seq![warmth_guidance@]
        } else {
            Seq::<Seq<char>>::empty()
        }) + (if user_emotion_label@.len() > 0 {
            seq![user_emotion_label@]
        } else {
            Seq::<Seq<char>>::empty()
        }));
    }
    r
}

} // verus!
