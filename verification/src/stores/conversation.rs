//! Session ids of stored conversations: how they are made and read back.
use vstd::prelude::*;
use crate::flow_service::is_lower_hex;
use crate::text::{
    all_digits, chars_of, concat_chars, first_index, first_index_of, last_index, last_index_of,
    lemma_first_index_bounds, lemma_first_index_found, lemma_last_index_bounds,
    lemma_last_index_found, lemma_utf8_len_ascii, lemma_utf8_len_at_least_chars, starts_with_str,
    string_of, sub_chars,
    utf8_len, utf8_len_upto,
};

verus! {

/// `s` with every `from` turned into `to`.
pub open spec fn swap_char(s: Seq<char>, from: char, to: char) -> Seq<char> {
    s.map_values(|c: char| if c == from { to } else { c })
}

fn swap_char_exec(s: &[char], from: char, to: char) -> (r: Vec<char>)
    ensures
        r@ == swap_char(s@, from, to),
{
    let mut out: Vec<char> = Vec::new();
    let mut i: usize = 0;
    while i < s.len()
        invariant
            i <= s@.len(),
            out@ == swap_char(s@.take(i as int), from, to),
        decreases s.len() - i,
    {
        let c = if s[i] == from {
            to
        } else {
            s[i]
        };
        proof {
            assert(swap_char(s@.take(i + 1), from, to) =~= swap_char(s@.take(i as int), from, to).push(c));
        }
        out.push(c);
        i = i + 1;
    }
    proof {
        assert(s@.take(s@.len() as int) =~= s@);
    }
    out
}

/// The session id of `user_id` in `dialogue_key` opened at `stamp` with the
/// random `suffix`: `session_<user>_<key with : as _>_<stamp>_<suffix>`.
pub open spec fn session_id_spec(user_id: Seq<char>, dialogue_key: Seq<char>, stamp: Seq<char>, suffix: Seq<char>) -> Seq<char> {
    "session_"@ + user_id + "_"@ + swap_char(dialogue_key, ':', '_') + "_"@ + stamp + "_"@ + suffix
}

/// The session id of `user_id` in `dialogue_key` opened at `stamp` with `suffix`.
pub fn session_id_for(user_id: &str, dialogue_key: &str, stamp: &str, suffix: &str) -> (r: String)
    ensures
        r@ == session_id_spec(user_id@, dialogue_key@, stamp@, suffix@),
{
    let u = chars_of("_");
    let dk = swap_char_exec(&chars_of(dialogue_key), ':', '_');
    let id = concat_chars(
        &concat_chars(
            &concat_chars(
                &concat_chars(
                    &concat_chars(&concat_chars(&concat_chars(&chars_of("session_"), &chars_of(user_id)), &u), &dk),
                    &u,
                ),
                &chars_of(stamp),
            ),
            &u,
        ),
        &chars_of(suffix),
    );
    string_of(&id)
}

/// Calls `chrono::Utc::now().format("%Y%m%d%H%M%S")`: the current time, so
/// nothing is claimed of it.
#[verifier::external_body]
fn utc_stamp() -> String {
    chrono::Utc::now().format("%Y%m%d%H%M%S").to_string()
}

/// Where the hyphenated text of a UUID has its hyphens.
pub open spec fn uuid_hyphen_at(i: int) -> bool {
    i == 8 || i == 13 || i == 18 || i == 23
}

/// Calls `uuid::Uuid::new_v4()` and writes it with `to_string`: random, but
/// always the hyphenated lower-case form (uuid's `Display` goes through
/// `LowerHex` of the hyphenated form): 36 characters, hyphens at 8, 13, 18
/// and 23, lower-case hex digits elsewhere.
#[verifier::external_body]
fn uuid_v4_text() -> (r: String)
    ensures
        r@.len() == 36,
        forall|i: int| 0 <= i < 36 ==> (if uuid_hyphen_at(i) { r@[i] == '-' } else { is_lower_hex(#[trigger] r@[i]) }),
{
    uuid::Uuid::new_v4().to_string()
}

/// A random suffix: the first eight characters of a fresh UUID with its
/// hyphens removed, which are the eight hex digits before its first hyphen.
fn random_suffix() -> (r: String)
    ensures
        r@.len() == 8,
        forall|i: int| 0 <= i < 8 ==> is_lower_hex(#[trigger] r@[i]),
{
    let u = chars_of(uuid_v4_text().as_str());
    let head = crate::text::sub_chars(&u, 0, 8);
    proof {
        assert forall|i: int| 0 <= i < 8 implies is_lower_hex(#[trigger] head@[i]) by {
            assert(head@[i] == u@[i]);
            assert(!uuid_hyphen_at(i));
        }
    }
    string_of(&head)
}

/// A fresh session id of `user_id` in `dialogue_key`: stamped with the
/// current time and a random suffix of eight lower-case hex digits.
pub fn generate_session_id(user_id: &str, dialogue_key: &str) -> (r: String)
    ensures
        exists|stamp: Seq<char>, suffix: Seq<char>|
            suffix.len() == 8 && (forall|i: int| 0 <= i < 8 ==> is_lower_hex(#[trigger] suffix[i]))
                && r@ == session_id_spec(user_id@, dialogue_key@, stamp, suffix),
{
    let stamp = utc_stamp();
    let suffix = random_suffix();
    let r = session_id_for(user_id, dialogue_key, stamp.as_str(), suffix.as_str());
    proof {
        assert(suffix@.len() == 8 && (forall|i: int| 0 <= i < 8 ==> is_lower_hex(#[trigger] suffix@[i]))
            && r@ == session_id_spec(user_id@, dialogue_key@, stamp@, suffix@));
    }
    r
}

/// The parts of a session id: after `session_`, at least 24 bytes whose
/// last two `_` set off a 14-digit stamp and an 8-byte suffix, and whose
/// first `_` before them parts the user from the dialogue key (its `_`
/// read back as `:`).
pub open spec fn parse_session_spec(id: Seq<char>) -> Option<(Seq<char>, Seq<char>, Seq<char>, Seq<char>)> {
    let p = "session_"@;
    if id.len() < p.len() || id.take(p.len() as int) != p {
        None
    } else {
        let body = id.skip(p.len() as int);
        if utf8_len(body) < 24 {
            None
        } else {
            match last_index_of(body, '_') {
                None => None,
                Some(a) => {
                    let suffix = body.skip(a + 1);
                    let rest = body.take(a);
                    match last_index_of(rest, '_') {
                        None => None,
                        Some(b) => {
                            let stamp = rest.skip(b + 1);
                            let prefix = rest.take(b);
                            if utf8_len(suffix) != 8 || utf8_len(stamp) != 14 || !all_digits(stamp) {
                                None
                            } else {
                                match first_index_of(prefix, '_') {
                                    None => None,
                                    Some(c) => Some(
                                        (
                                            prefix.take(c),
                                            swap_char(prefix.skip(c + 1), '_', ':'),
                                            stamp,
                                            suffix,
                                        ),
                                    ),
                                }
                            }
                        },
                    }
                },
            }
        }
    }
}

/// The user, dialogue key, stamp and suffix written in a session id.
pub fn parse_session_id(session_id: &str) -> (r: Option<(String, String, String, String)>)
    ensures
        match parse_session_spec(session_id@) {
            None => r is None,
            Some(t) => r is Some && r.unwrap().0@ == t.0 && r.unwrap().1@ == t.1 && r.unwrap().2@
                == t.2 && r.unwrap().3@ == t.3,
        },
{
    let id = chars_of(session_id);
    proof {
        reveal_strlit("session_");
    }
    if !starts_with_str(&id, "session_") {
        return None;
    }
    let body = sub_chars(&id, 8, id.len());
    proof {
        assert(body@ =~= session_id@.skip(8));
        assert(session_id@.take(8) =~= session_id@.subrange(0, 8));
    }
    match utf8_len_upto(&body, 23) {
        Some(_) => {
            return None;
        },
        None => {},
    }
    proof {
        lemma_last_index_bounds(body@, '_');
    }
    let a = match last_index(&body, '_') {
        None => {
            return None;
        },
        Some(a) => a,
    };
    let suffix = sub_chars(&body, a + 1, body.len());
    let rest = sub_chars(&body, 0, a);
    proof {
        assert(suffix@ =~= body@.skip(a + 1));
        assert(rest@ =~= body@.take(a as int));
        lemma_last_index_bounds(rest@, '_');
    }
    let b = match last_index(&rest, '_') {
        None => {
            return None;
        },
        Some(b) => b,
    };
    let stamp = sub_chars(&rest, b + 1, rest.len());
    let prefix = sub_chars(&rest, 0, b);
    proof {
        assert(stamp@ =~= rest@.skip(b + 1));
        assert(prefix@ =~= rest@.take(b as int));
    }
    let suffix_ok = match utf8_len_upto(&suffix, 8) {
        Some(n) => n == 8,
        None => false,
    };
    let stamp_ok = match utf8_len_upto(&stamp, 14) {
        Some(n) => n == 14,
        None => false,
    };
    if !suffix_ok || !stamp_ok || !digits_only(&stamp) {
        return None;
    }
    proof {
        lemma_first_index_bounds(prefix@, '_');
    }
    match first_index(&prefix, '_') {
        None => None,
        Some(c) => {
            let uid = sub_chars(&prefix, 0, c);
            let tail = sub_chars(&prefix, c + 1, prefix.len());
            let dk = swap_char_exec(&tail, '_', ':');
            proof {
                assert(uid@ =~= prefix@.take(c as int));
                assert(tail@ =~= prefix@.skip(c + 1));
            }
            Some((string_of(&uid), string_of(&dk), string_of(&stamp), string_of(&suffix)))
        },
    }
}

fn digits_only(s: &[char]) -> (r: bool)
    ensures
        r == all_digits(s@),
{
    let mut i: usize = 0;
    while i < s.len()
        invariant
            i <= s@.len(),
            forall|j: int| 0 <= j < i ==> '0' <= #[trigger] s@[j] && s@[j] <= '9',
        decreases s.len() - i,
    {
        if !('0' <= s[i] && s[i] <= '9') {
            return false;
        }
        i = i + 1;
    }
    true
}

} // verus!

verus! {

/// A session id made from a user and a dialogue key without `_`, a stamp of
/// 14 digits and an 8-character ASCII suffix without `_` reads back as
/// exactly those parts.
pub proof fn law_session_id_round_trip(user_id: Seq<char>, dialogue_key: Seq<char>, stamp: Seq<char>, suffix: Seq<char>)
    requires
        forall|i: int| 0 <= i < user_id.len() ==> #[trigger] user_id[i] != '_',
        forall|i: int| 0 <= i < dialogue_key.len() ==> #[trigger] dialogue_key[i] != '_',
        stamp.len() == 14,
        all_digits(stamp),
        suffix.len() == 8,
        forall|i: int| 0 <= i < 8 ==> #[trigger] suffix[i] != '_' && (suffix[i] as u32) < 0x80,
    ensures
        parse_session_spec(session_id_spec(user_id, dialogue_key, stamp, suffix)) == Some(
            (user_id, dialogue_key, stamp, suffix),
        ),
{
    reveal_strlit("session_");
    reveal_strlit("_");
    let d2 = swap_char(dialogue_key, ':', '_');
    let id = session_id_spec(user_id, dialogue_key, stamp, suffix);
    let body = user_id + "_"@ + d2 + "_"@ + stamp + "_"@ + suffix;
    assert(id.take(8) =~= "session_"@);
    assert(id.skip(8) =~= body);
    // the suffix is set off by the last `_`
    let a = body.len() - 9;
    assert(body[a] == '_');
    assert forall|t: int| a < t < body.len() implies body[t] != '_' by {
        assert(body[t] == suffix[t - a - 1]);
    }
    lemma_last_index_found(body, '_', a);
    let rest = body.take(a);
    assert(body.skip(a + 1) =~= suffix);
    assert(rest =~= user_id + "_"@ + d2 + "_"@ + stamp);
    // the stamp by the one before
    let b = rest.len() - 15;
    assert(rest[b] == '_');
    assert forall|t: int| b < t < rest.len() implies rest[t] != '_' by {
        assert(rest[t] == stamp[t - b - 1]);
    }
    lemma_last_index_found(rest, '_', b);
    let prefix = rest.take(b);
    assert(rest.skip(b + 1) =~= stamp);
    assert(prefix =~= user_id + "_"@ + d2);
    // the user by the first `_`
    let c = user_id.len() as int;
    assert(prefix[c] == '_');
    assert forall|t: int| 0 <= t < c implies prefix[t] != '_' by {
        assert(prefix[t] == user_id[t]);
    }
    lemma_first_index_found(prefix, '_', c);
    assert(prefix.take(c) =~= user_id);
    assert(prefix.skip(c + 1) =~= d2);
    assert(swap_char(d2, '_', ':') =~= dialogue_key);
    // byte lengths
    assert forall|i: int| 0 <= i < 8 implies (#[trigger] suffix[i] as u32) < 0x80 by {}
    lemma_utf8_len_ascii(suffix);
    assert forall|i: int| 0 <= i < 14 implies (#[trigger] stamp[i] as u32) < 0x80 by {
        assert('0' <= stamp[i] && stamp[i] <= '9');
    }
    lemma_utf8_len_ascii(stamp);
    lemma_utf8_len_at_least_chars(body);
}

} // verus!
