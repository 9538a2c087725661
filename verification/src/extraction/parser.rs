//! Reading the extraction model's reply: turn anchors, directives, pipe and
//! tagged memory lines, and replies that say there is nothing to remember.
use vstd::prelude::*;

use std::collections::HashSet;

use crate::extraction::models::{
    ExtractedMemory, ImportanceSource, ImportanceSpec, LineSpec, ParsedMemoryLine,
};
use crate::outside::{
    regex_captures, regex_captures_of, regex_replace_all, regex_replace_all_of,
    regex_replace_first, regex_replace_first_of,
};
use crate::text::{
    chars_eq, chars_of, contains, contains_spec, contains_str, ends_with_spec, ends_with_str, eq_str,
    first_index, first_index_of, last_index, last_index_of, lemma_first_index_bounds,
    lemma_last_index_bounds, lowercase_of, parse_u32, parse_u32_spec, starts_with_spec,
    all_ascii, ascii_upper_seq, decimal_spec, is_ascii_digit, lemma_decimal_digits,
    lemma_digits_ascii_upper, lemma_first_index_absent, lemma_first_index_found,
    lemma_map_upper_concat, lemma_parse_decimal, trim_end_spec, trim_start_spec,
    split_char, split_spec, starts_with_str, string_of, sub_chars, to_lowercase, to_uppercase,
    trim, trim_spec, uppercase_of, utf8_len, utf8_len_upto, views,
};

verus! {

// ---------------------------------------------------------------------------
// Turn anchors such as `T3` or `T1-T4`.

/// The anchor read from upper-cased text: an optional `T`, a turn number,
/// and for a range `-`, an optional `T` and the last turn number; turn
/// numbers are positive and a range does not run backwards.
pub open spec fn anchor_of_upper(u: Seq<char>) -> Option<(u32, u32)> {
    let w = if u.len() > 0 && u[0] == 'T' {
        u.drop_first()
    } else {
        u
    };
    match first_index_of(w, '-') {
        Some(i) => {
            let a = w.subrange(0, i);
            let b0 = w.subrange(i + 1, w.len() as int);
            let b = if b0.len() > 0 && b0[0] == 'T' {
                b0.drop_first()
            } else {
                b0
            };
            match (parse_u32_spec(a), parse_u32_spec(b)) {
                (Some(s), Some(e)) => if s == 0 || e == 0 || s > e {
                    None
                } else {
                    Some((s, e))
                },
                _ => None,
            }
        },
        None => match parse_u32_spec(w) {
            Some(id) => if id == 0 {
                None
            } else {
                Some((id, id))
            },
            None => None,
        },
    }
}

/// The anchor written in `anchor` (trimmed, then upper-cased).
pub open spec fn parse_anchor_spec(anchor: Seq<char>) -> Option<(u32, u32)> {
    let s = trim_spec(anchor);
    if s.len() == 0 {
        None
    } else {
        anchor_of_upper(uppercase_of(s))
    }
}

/// The anchor in already upper-cased, trimmed text.
pub fn anchor_from_upper(u: &[char]) -> (r: Option<(u32, u32)>)
    ensures
        r == anchor_of_upper(u@),
{
    let w = if u.len() > 0 && u[0] == 'T' {
        sub_chars(u, 1, u.len())
    } else {
        sub_chars(u, 0, u.len())
    };
    proof {
        if u@.len() > 0 && u@[0] == 'T' {
            assert(w@ =~= u@.drop_first());
        } else {
            assert(w@ =~= u@);
        }
    }
    match first_index(&w, '-') {
        Some(i) => {
            proof {
                lemma_first_index_bounds(w@, '-');
            }
            let a = sub_chars(&w, 0, i);
            let b0 = sub_chars(&w, i + 1, w.len());
            let b = if b0.len() > 0 && b0[0] == 'T' {
                sub_chars(&b0, 1, b0.len())
            } else {
                sub_chars(&b0, 0, b0.len())
            };
            proof {
                if b0@.len() > 0 && b0@[0] == 'T' {
                    assert(b@ =~= b0@.drop_first());
                } else {
                    assert(b@ =~= b0@);
                }
            }
            match (parse_u32(&a), parse_u32(&b)) {
                (Some(s), Some(e)) => if s == 0 || e == 0 || s > e {
                    None
                } else {
                    Some((s, e))
                },
                _ => None,
            }
        },
        None => match parse_u32(&w) {
            Some(id) => if id == 0 {
                None
            } else {
                Some((id, id))
            },
            None => None,
        },
    }
}

/// `T{a}-T{b}` and `T{a}-{b}` (upper-cased anchors) read back as the range.
proof fn lemma_anchor_range_reads(a: u32, b: u32, mid: Seq<char>)
    requires
        1 <= a <= b,
        mid == "-T"@ || mid == "-"@,
    ensures
        anchor_of_upper("T"@ + decimal_spec(a as nat) + mid + decimal_spec(b as nat)) == Some(
            (a, b),
        ),
{
    reveal_strlit("T");
    reveal_strlit("-T");
    reveal_strlit("-");
    let da = decimal_spec(a as nat);
    let db = decimal_spec(b as nat);
    lemma_decimal_digits(a as nat);
    lemma_decimal_digits(b as nat);
    lemma_parse_decimal(a);
    lemma_parse_decimal(b);
    let u = "T"@ + da + mid + db;
    let w = da + mid + db;
    assert(u[0] == 'T');
    assert(u.drop_first() =~= w);
    assert(w[da.len() as int] == '-');
    assert forall|t: int| 0 <= t < da.len() implies w[t] != '-' by {
        assert(w[t] == da[t]);
        assert(is_ascii_digit(da[t]));
    }
    lemma_first_index_found(w, '-', da.len() as int);
    assert(w.subrange(0, da.len() as int) =~= da);
    let b0 = w.subrange(da.len() as int + 1, w.len() as int);
    if mid == "-T"@ {
        assert(b0 =~= seq!['T'] + db);
        assert(b0.drop_first() =~= db);
    } else {
        assert(b0 =~= db);
        assert(is_ascii_digit(db[0]));
    }
}

/// `T{a}` (an upper-cased anchor) reads back as the single turn.
proof fn lemma_anchor_single_reads(a: u32)
    requires
        1 <= a,
    ensures
        anchor_of_upper("T"@ + decimal_spec(a as nat)) == Some((a, a)),
{
    reveal_strlit("T");
    let da = decimal_spec(a as nat);
    lemma_decimal_digits(a as nat);
    lemma_parse_decimal(a);
    assert(("T"@ + da)[0] == 'T');
    assert(("T"@ + da).drop_first() =~= da);
    assert forall|t: int| 0 <= t < da.len() implies da[t] != '-' by {
        assert(is_ascii_digit(da[t]));
    }
    lemma_first_index_absent(da, '-');
}

/// Text that starts and ends with a non-space character is its own trim.
proof fn lemma_trim_keeps(s: Seq<char>)
    requires
        s.len() > 0,
        !crate::text::is_ws(s[0]),
        !crate::text::is_ws(s.last()),
    ensures
        trim_spec(s) == s,
{
    assert(trim_start_spec(s) == s);
}

/// The written forms of an anchor, trimmed and upper-cased as `parse_anchor`
/// does, read back as the range they name.
proof fn lemma_anchor_forms(anchor: Seq<char>, upper: Seq<char>, a: u32, b: u32)
    requires
        1 <= a <= b,
        all_ascii(trim_spec(anchor)) ==> upper == ascii_upper_seq(trim_spec(anchor)),
        anchor == "T"@ + decimal_spec(a as nat) + "-T"@ + decimal_spec(b as nat) || anchor == "t"@
            + decimal_spec(a as nat) + "-"@ + decimal_spec(b as nat) || (a == b && anchor == "T"@
            + decimal_spec(a as nat)) || (a == b && anchor == "  T"@ + decimal_spec(a as nat)
            + " "@),
    ensures
        trim_spec(anchor).len() > 0,
        anchor_of_upper(upper) == Some((a, b)),
{
    reveal_strlit("T");
    reveal_strlit("t");
    reveal_strlit("-T");
    reveal_strlit("-");
    reveal_strlit("  T");
    reveal_strlit(" ");
    let da = decimal_spec(a as nat);
    let db = decimal_spec(b as nat);
    lemma_decimal_digits(a as nat);
    lemma_decimal_digits(b as nat);
    lemma_digits_ascii_upper(da);
    lemma_digits_ascii_upper(db);
    assert(is_ascii_digit(da.last()));
    assert(is_ascii_digit(db.last()));
    assert(ascii_upper_seq("T"@) =~= "T"@);
    assert(ascii_upper_seq("-T"@) =~= "-T"@);
    assert(ascii_upper_seq("-"@) =~= "-"@);
    assert(ascii_upper_seq("t"@) =~= "T"@);
    if anchor == "T"@ + da + "-T"@ + db {
        assert(anchor.last() == db.last());
        lemma_trim_keeps(anchor);
        assert(all_ascii(anchor));
        lemma_map_upper_concat("T"@ + da + "-T"@, db);
        lemma_map_upper_concat("T"@ + da, "-T"@);
        lemma_map_upper_concat("T"@, da);
        lemma_anchor_range_reads(a, b, "-T"@);
    } else if anchor == "t"@ + da + "-"@ + db {
        assert(anchor.last() == db.last());
        lemma_trim_keeps(anchor);
        assert(all_ascii(anchor));
        lemma_map_upper_concat("t"@ + da + "-"@, db);
        lemma_map_upper_concat("t"@ + da, "-"@);
        lemma_map_upper_concat("t"@, da);
        lemma_anchor_range_reads(a, b, "-"@);
    } else {
        let core = "T"@ + da;
        assert(core.last() == da.last());
        lemma_trim_keeps(core);
        if anchor == "  T"@ + da + " "@ {
            assert(anchor[0] == ' ');
            assert(anchor.drop_first()[0] == ' ');
            assert(anchor.drop_first().drop_first() =~= core + " "@);
            assert(trim_start_spec(anchor) == trim_start_spec(anchor.drop_first()));
            assert(trim_start_spec(anchor.drop_first()) == trim_start_spec(
                anchor.drop_first().drop_first(),
            ));
            assert(trim_start_spec(anchor) == trim_start_spec(core + " "@));
            assert(trim_start_spec(core + " "@) == core + " "@);
            assert((core + " "@).drop_last() =~= core);
            assert(trim_end_spec(core + " "@) == trim_end_spec(core));
            assert(trim_end_spec(core) == core);
        }
        assert(trim_spec(anchor) == core);
        assert(all_ascii(core));
        lemma_map_upper_concat("T"@, da);
        lemma_anchor_single_reads(a);
    }
}

fn parse_anchor_chars(anchor: &[char]) -> (r: Option<(u32, u32)>)
    ensures
        r == parse_anchor_spec(anchor@),
        forall|a: u32, b: u32|
            #![trigger decimal_spec(a as nat), decimal_spec(b as nat)]
            1 <= a <= b && (anchor@ == "T"@ + decimal_spec(a as nat) + "-T"@ + decimal_spec(
                b as nat,
            ) || anchor@ == "t"@ + decimal_spec(a as nat) + "-"@ + decimal_spec(b as nat)) ==> r
                == Some((a, b)),
        forall|a: u32|
            1 <= a && (anchor@ == "T"@ + decimal_spec(a as nat) || anchor@ == "  T"@
                + #[trigger] decimal_spec(a as nat) + " "@) ==> r == Some((a, a)),
{
    let s = trim(anchor);
    let upper = to_uppercase(&s);
    proof {
        assert forall|a: u32, b: u32|
            #![trigger decimal_spec(a as nat), decimal_spec(b as nat)]
            1 <= a <= b && (anchor@ == "T"@ + decimal_spec(a as nat) + "-T"@ + decimal_spec(
                b as nat,
            ) || anchor@ == "t"@ + decimal_spec(a as nat) + "-"@ + decimal_spec(
                b as nat,
            )) implies s@.len() > 0 && anchor_of_upper(upper@) == Some((a, b)) by {
            lemma_anchor_forms(anchor@, upper@, a, b);
        }
        assert forall|a: u32|
            1 <= a && (anchor@ == "T"@ + decimal_spec(a as nat) || anchor@ == "  T"@
                + #[trigger] decimal_spec(a as nat) + " "@) implies s@.len() > 0
            && anchor_of_upper(upper@) == Some((a, a)) by {
            lemma_anchor_forms(anchor@, upper@, a, a);
        }
    }
    if s.len() == 0 {
        return None;
    }
    anchor_from_upper(&upper)
}

/// The turn range written in `anchor`: `T3` is `(3, 3)`, `T1-T4` and `t1-4`
/// are `(1, 4)`; anything else (turn 0, a backwards range, junk) is `None`.
/// Every anchor written as `T{a}-T{b}` or `t{a}-{b}` with `1 <= a <= b`
/// reads back as `(a, b)`, and `T{a}` or `  T{a} ` with `a >= 1` as
/// `(a, a)`; a range that is read is never empty or backwards.
pub fn parse_anchor(anchor: &str) -> (r: Option<(u32, u32)>)
    ensures
        r == parse_anchor_spec(anchor@),
        forall|a: u32, b: u32|
            #![trigger decimal_spec(a as nat), decimal_spec(b as nat)]
            1 <= a <= b && (anchor@ == "T"@ + decimal_spec(a as nat) + "-T"@ + decimal_spec(
                b as nat,
            ) || anchor@ == "t"@ + decimal_spec(a as nat) + "-"@ + decimal_spec(b as nat)) ==> r
                == Some((a, b)),
        forall|a: u32|
            1 <= a && (anchor@ == "T"@ + decimal_spec(a as nat) || anchor@ == "  T"@
                + #[trigger] decimal_spec(a as nat) + " "@) ==> r == Some((a, a)),
        match r {
            Some((x, y)) => 1 <= x <= y,
            None => true,
        },
{
    parse_anchor_chars(&chars_of(anchor))
}

/// Whether a memory's turn range is well formed and every turn in it is allowed.
pub fn is_valid_anchor(memory: &ExtractedMemory, allowed_turn_ids: &HashSet<u32>) -> (r: bool)
    ensures
        r == (memory.source_turn_start != 0 && memory.source_turn_end != 0
            && memory.source_turn_start <= memory.source_turn_end && forall|t: u32|
            memory.source_turn_start <= t <= memory.source_turn_end ==> allowed_turn_ids@.contains(
                t,
            )),
{
    broadcast use vstd::std_specs::hash::group_hash_axioms;

    let start = memory.source_turn_start;
    let end = memory.source_turn_end;
    if start == 0 || end == 0 {
        return false;
    }
    if start > end {
        return false;
    }
    let mut t = start;
    loop
        invariant
            start == memory.source_turn_start,
            end == memory.source_turn_end,
            start > 0,
            start <= t <= end,
            forall|k: u32| start <= k < t ==> allowed_turn_ids@.contains(k),
        decreases end - t,
    {
        if !allowed_turn_ids.contains(&t) {
            return false;
        }
        if t == end {
            proof {
                assert forall|k: u32| start <= k <= end implies allowed_turn_ids@.contains(k) by {
                    if k < t {
                    }
                }
            }
            return true;
        }
        t = t + 1;
    }
}

// ---------------------------------------------------------------------------
// Replies that say there is nothing to remember.

/// Characters dropped before comparing a reply with the exact phrases.
pub open spec fn is_simple_punct(c: char) -> bool {
    ||| c == ' '
    ||| c == '\t'
    ||| c == '\n'
    ||| c == '\r'
    ||| c == '`'
    ||| c == '\''
    ||| c == '"'
    ||| c == '“'
    ||| c == '”'
    ||| c == '‘'
    ||| c == '’'
    ||| c == '。'
    ||| c == '．'
    ||| c == '.'
    ||| c == '!'
    ||| c == '！'
    ||| c == '?'
    ||| c == '？'
    ||| c == '、'
    ||| c == ','
    ||| c == '：'
    ||| c == ':'
    ||| c == '；'
    ||| c == ';'
    ||| c == '-'
    ||| c == '*'
    ||| c == '—'
}

/// `text` without spaces and simple punctuation, lower-cased.
pub open spec fn normalize_text_simple_spec(text: Seq<char>) -> Seq<char> {
    lowercase_of(text.filter(|c: char| !is_simple_punct(c)))
}

/// Normalised replies that mean "nothing to extract".
pub open spec fn no_memory_exact_spec(n: Seq<char>) -> bool {
    ||| n == "无"@
    ||| n == "无可提取内容"@
    ||| n == "没有可提取内容"@
    ||| n == "暂无可提取内容"@
    ||| n == "none"@
    ||| n == "nomemory"@
    ||| n == "nomemories"@
    ||| n == "noextractablememory"@
    ||| n == "noextractablememories"@
}

/// Lower-cased `lowered` holds one of the phrases that mean "nothing to
/// extract" (each lower-cased too).
pub open spec fn no_memory_phrase_spec(lowered: Seq<char>) -> bool {
    ||| contains_spec(lowered, lowercase_of("暂无记忆"@))
    ||| contains_spec(lowered, lowercase_of("no memory"@))
    ||| contains_spec(lowered, lowercase_of("无相关记忆"@))
    ||| contains_spec(lowered, lowercase_of("未发现"@))
    ||| contains_spec(lowered, lowercase_of("没有值得"@))
    ||| contains_spec(lowered, lowercase_of("无需记录"@))
    ||| contains_spec(lowered, lowercase_of("无需提取"@))
    ||| contains_spec(lowered, lowercase_of("没有相关信息"@))
    ||| contains_spec(lowered, lowercase_of("无记忆"@))
    ||| contains_spec(lowered, lowercase_of("no relevant memory"@))
    ||| contains_spec(lowered, lowercase_of("nothing to remember"@))
    ||| contains_spec(lowered, lowercase_of("no significant"@))
    ||| contains_spec(lowered, lowercase_of("no meaningful"@))
    ||| contains_spec(lowered, lowercase_of("trivial"@))
    ||| contains_spec(lowered, lowercase_of("nothing worth"@))
    ||| contains_spec(lowered, lowercase_of("nothing notable"@))
    ||| contains_spec(lowered, lowercase_of("no new information"@))
    ||| contains_spec(lowered, lowercase_of("信息不足"@))
    ||| contains_spec(lowered, lowercase_of("无法确定"@))
    ||| contains_spec(lowered, lowercase_of("不足以提取"@))
    ||| contains_spec(lowered, lowercase_of("无有效信息"@))
    ||| contains_spec(lowered, lowercase_of("没有可提取"@))
    ||| contains_spec(lowered, lowercase_of("当前对话"@))
}

/// The reply says there is nothing to remember.
pub open spec fn no_memory_spec(content: Seq<char>) -> bool {
    let t = trim_spec(content);
    t.len() > 0 && (no_memory_exact_spec(normalize_text_simple_spec(t)) || no_memory_phrase_spec(
        lowercase_of(t),
    ))
}

/// Whether `c` is dropped by `normalize_text_simple`.
pub fn simple_punct(c: char) -> (r: bool)
    ensures
        r == is_simple_punct(c),
{
    c == ' ' || c == '\t' || c == '\n' || c == '\r' || c == '`' || c == '\'' || c == '"' || c
        == '“' || c == '”' || c == '‘' || c == '’' || c == '。' || c == '．' || c == '.' || c == '!'
        || c == '！' || c == '?' || c == '？' || c == '、' || c == ',' || c == '：' || c == ':' || c
        == '；' || c == ';' || c == '-' || c == '*' || c == '—'
}

fn drop_simple_punct(s: &[char]) -> (r: Vec<char>)
    ensures
        r@ == s@.filter(|c: char| !is_simple_punct(c)),
{
    let mut r: Vec<char> = Vec::new();
    let mut i: usize = 0;
    proof {
        assert(s@.take(0).filter(|c: char| !is_simple_punct(c)) =~= Seq::<char>::empty());
    }
    while i < s.len()
        invariant
            i <= s@.len(),
            r@ == s@.take(i as int).filter(|c: char| !is_simple_punct(c)),
        decreases s.len() - i,
    {
        proof {
            assert(s@.take(i + 1).drop_last() =~= s@.take(i as int));
            reveal_with_fuel(Seq::filter, 1);
        }
        if !simple_punct(s[i]) {
            r.push(s[i]);
        }
        i = i + 1;
    }
    proof {
        assert(s@.take(s@.len() as int) =~= s@);
    }
    r
}

fn normalize_simple_chars(text: &[char]) -> (r: Vec<char>)
    ensures
        r@ == normalize_text_simple_spec(text@),
{
    to_lowercase(&drop_simple_punct(text))
}

/// `text` without spaces and simple punctuation, lower-cased.
pub fn normalize_text_simple(text: &str) -> (r: String)
    ensures
        r@ == normalize_text_simple_spec(text@),
{
    string_of(&normalize_simple_chars(&chars_of(text)))
}

fn contains_lowered(hay: &[char], pat: &str) -> (r: bool)
    ensures
        r == contains_spec(hay@, lowercase_of(pat@)),
{
    contains(hay, &to_lowercase(&chars_of(pat)))
}

/// Given a reply's normalised form and its lower-cased form, whether it
/// says there is nothing to remember.
pub fn no_memory_decision(normalized: &[char], lowered: &[char]) -> (r: bool)
    ensures
        r == (no_memory_exact_spec(normalized@) || no_memory_phrase_spec(lowered@)),
{
    if eq_str(normalized, "无") || eq_str(normalized, "无可提取内容") || eq_str(
        normalized,
        "没有可提取内容",
    ) || eq_str(normalized, "暂无可提取内容") || eq_str(normalized, "none") || eq_str(
        normalized,
        "nomemory",
    ) || eq_str(normalized, "nomemories") || eq_str(normalized, "noextractablememory") || eq_str(
        normalized,
        "noextractablememories",
    ) {
        return true;
    }
    contains_lowered(lowered, "暂无记忆") || contains_lowered(lowered, "no memory")
        || contains_lowered(lowered, "无相关记忆") || contains_lowered(lowered, "未发现")
        || contains_lowered(lowered, "没有值得") || contains_lowered(lowered, "无需记录")
        || contains_lowered(lowered, "无需提取") || contains_lowered(lowered, "没有相关信息")
        || contains_lowered(lowered, "无记忆") || contains_lowered(lowered, "no relevant memory")
        || contains_lowered(lowered, "nothing to remember") || contains_lowered(
        lowered,
        "no significant",
    ) || contains_lowered(lowered, "no meaningful") || contains_lowered(lowered, "trivial")
        || contains_lowered(lowered, "nothing worth") || contains_lowered(lowered, "nothing notable")
        || contains_lowered(lowered, "no new information") || contains_lowered(lowered, "信息不足")
        || contains_lowered(lowered, "无法确定") || contains_lowered(lowered, "不足以提取")
        || contains_lowered(lowered, "无有效信息") || contains_lowered(lowered, "没有可提取")
        || contains_lowered(lowered, "当前对话")
}

fn no_memory_chars(content: &[char]) -> (r: bool)
    ensures
        r == no_memory_spec(content@),
{
    let t = trim(content);
    if t.len() == 0 {
        return false;
    }
    let normalized = normalize_simple_chars(&t);
    let lowered = to_lowercase(&t);
    no_memory_decision(&normalized, &lowered)
}

/// Whether the reply says there is nothing to remember: after trimming it
/// is non-empty and either, stripped of punctuation and lower-cased, one of
/// the exact phrases, or, lower-cased, contains one of the known phrases.
pub fn is_explicit_no_memory_response(content: &str) -> (r: bool)
    ensures
        r == no_memory_spec(content@),
{
    no_memory_chars(&chars_of(content))
}

/// Lower-cased error text that marks a rate limit.
pub open spec fn rate_limit_spec(lowered: Seq<char>) -> bool {
    contains_spec(lowered, "429"@) || contains_spec(lowered, "rate limit"@) || contains_spec(
        lowered,
        "rate-limited"@,
    )
}

/// Whether the error message, lower-cased, mentions `429`, `rate limit` or `rate-limited`.
pub fn is_rate_limit_error(error_message: &str) -> (r: bool)
    ensures
        r == rate_limit_spec(lowercase_of(error_message@)),
{
    let msg = to_lowercase(&chars_of(error_message));
    contains_str(&msg, "429") || contains_str(&msg, "rate limit") || contains_str(
        &msg,
        "rate-limited",
    )
}

// ---------------------------------------------------------------------------
// The JSON object inside a reply.

/// Text from the first `{` to the last `}` of the trimmed reply; the whole
/// trimmed reply when it already starts with `{` and ends with `}`; empty
/// when it is empty or lacks either brace.
pub open spec fn json_object_spec(content: Seq<char>) -> Seq<char> {
    let t = trim_spec(content);
    if t.len() == 0 {
        Seq::empty()
    } else if starts_with_spec(t, "{"@) && ends_with_spec(t, "}"@) {
        t
    } else {
        match (first_index_of(t, '{'), last_index_of(t, '}')) {
            (Some(a), Some(b)) => t.subrange(a, b + 1),
            _ => Seq::empty(),
        }
    }
}

/// A `}` that comes before the first `{` with text between them: the slice
/// that would be taken runs backwards.
pub open spec fn json_object_backwards(content: Seq<char>) -> bool {
    let t = trim_spec(content);
    &&& t.len() > 0
    &&& !(starts_with_spec(t, "{"@) && ends_with_spec(t, "}"@))
    &&& match (first_index_of(t, '{'), last_index_of(t, '}')) {
        (Some(a), Some(b)) => b + 1 < a,
        _ => false,
    }
}

/// The JSON object of a reply: see `json_object_spec`. Replies whose last
/// `}` lies before their first `{` with text between are outside the domain.
pub fn extract_json_object(content: &str) -> (r: String)
    requires
        !json_object_backwards(content@),
    ensures
        r@ == json_object_spec(content@),
{
    let t = trim(&chars_of(content));
    if t.len() == 0 {
        return String::new();
    }
    proof {
        reveal_strlit("{");
        reveal_strlit("}");
    }
    if starts_with_str(&t, "{") && ends_with_str(&t, "}") {
        return string_of(&t);
    }
    match first_index(&t, '{') {
        Some(a) => match last_index(&t, '}') {
            Some(b) => {
                proof {
                    lemma_first_index_bounds(t@, '{');
                    lemma_last_index_bounds(t@, '}');
                }
                string_of(&sub_chars(&t, a, b + 1))
            },
            None => String::new(),
        },
        None => String::new(),
    }
}

} // verus!

verus! {

// ---------------------------------------------------------------------------
// Directive lines: `[TONE:…]`, `[CATEGORY:…]` / `[类别:…]`, `[FACT_KIND:…]`.

/// Emotional tones a `[TONE:…]` directive may set.
pub open spec fn valid_tone_spec(t: Seq<char>) -> bool {
    ||| t == "开心"@
    ||| t == "喜欢"@
    ||| t == "惊讶"@
    ||| t == "无语"@
    ||| t == "委屈"@
    ||| t == "生气"@
    ||| t == "伤心"@
    ||| t == "嘲讽"@
    ||| t == "害怕"@
    ||| t == "困惑"@
    ||| t == "平静"@
}

/// Category code for a category label.
pub open spec fn category_code_spec(label: Seq<char>) -> Option<Seq<char>> {
    if label == "核心事实"@ {
        Some("core_fact"@)
    } else if label == "重要"@ {
        Some("important"@)
    } else if label == "闲聊"@ {
        Some("casual"@)
    } else {
        None
    }
}

/// Fact kinds a `[FACT_KIND:…]` directive may set.
pub open spec fn valid_fact_kind_spec(k: Seq<char>) -> bool {
    ||| k == "偏好"@
    ||| k == "边界"@
    ||| k == "计划"@
    ||| k == "背景"@
    ||| k == "档案"@
}

/// Trimmed text of a directive `s` between its `skip`-character opening
/// (checked on the lower-cased line) and its closing `]`.
pub open spec fn directive_body(s: Seq<char>, opening: Seq<char>, skip: int) -> Option<Seq<char>> {
    if starts_with_spec(lowercase_of(s), opening) && ends_with_spec(s, "]"@) && s.len() >= skip + 1 {
        Some(trim_spec(s.subrange(skip, s.len() - 1)))
    } else {
        None
    }
}

/// The tone set by a `[TONE:…]` line.
pub open spec fn tone_directive_spec(line: Seq<char>) -> Option<Seq<char>> {
    match directive_body(trim_spec(line), "[tone:"@, 6) {
        Some(t) => if valid_tone_spec(t) {
            Some(t)
        } else {
            None
        },
        None => None,
    }
}

/// The category code set by a `[CATEGORY:…]` or `[类别:…]` line.
pub open spec fn category_directive_spec(line: Seq<char>) -> Option<Seq<char>> {
    let s = trim_spec(line);
    match directive_body(s, "[category:"@, 10) {
        Some(label) => category_code_spec(label),
        None => match directive_body(s, "[类别:"@, 4) {
            Some(label) => category_code_spec(label),
            None => None,
        },
    }
}

/// The fact kind set by a `[FACT_KIND:…]` line.
pub open spec fn fact_kind_directive_spec(line: Seq<char>) -> Option<Seq<char>> {
    match directive_body(trim_spec(line), "[fact_kind:"@, 11) {
        Some(k) => if valid_fact_kind_spec(k) {
            Some(k)
        } else {
            None
        },
        None => None,
    }
}

fn valid_tone(t: &[char]) -> (r: bool)
    ensures
        r == valid_tone_spec(t@),
{
    eq_str(t, "开心") || eq_str(t, "喜欢") || eq_str(t, "惊讶") || eq_str(t, "无语") || eq_str(
        t,
        "委屈",
    ) || eq_str(t, "生气") || eq_str(t, "伤心") || eq_str(t, "嘲讽") || eq_str(t, "害怕")
        || eq_str(t, "困惑") || eq_str(t, "平静")
}

fn category_code(label: &[char]) -> (r: Option<Vec<char>>)
    ensures
        match r {
            Some(v) => category_code_spec(label@) == Some(v@),
            None => category_code_spec(label@) is None,
        },
{
    if eq_str(label, "核心事实") {
        Some(chars_of("core_fact"))
    } else if eq_str(label, "重要") {
        Some(chars_of("important"))
    } else if eq_str(label, "闲聊") {
        Some(chars_of("casual"))
    } else {
        None
    }
}

fn valid_fact_kind(k: &[char]) -> (r: bool)
    ensures
        r == valid_fact_kind_spec(k@),
{
    eq_str(k, "偏好") || eq_str(k, "边界") || eq_str(k, "计划") || eq_str(k, "背景") || eq_str(
        k,
        "档案",
    )
}

fn directive_body_of(s: &[char], lowered: &[char], opening: &str, skip: usize) -> (r: Option<
    Vec<char>,
>)
    requires
        lowered@ == lowercase_of(s@),
    ensures
        match r {
            Some(v) => directive_body(s@, opening@, skip as int) == Some(v@),
            None => directive_body(s@, opening@, skip as int) is None,
        },
{
    if starts_with_str(lowered, opening) && ends_with_str(s, "]") && s.len() > skip {
        Some(trim(&sub_chars(s, skip, s.len() - 1)))
    } else {
        None
    }
}

fn tone_directive(line: &[char]) -> (r: Option<Vec<char>>)
    ensures
        match r {
            Some(v) => tone_directive_spec(line@) == Some(v@),
            None => tone_directive_spec(line@) is None,
        },
{
    let s = trim(line);
    let lowered = to_lowercase(&s);
    match directive_body_of(&s, &lowered, "[tone:", 6) {
        Some(t) => if valid_tone(&t) {
            Some(t)
        } else {
            None
        },
        None => None,
    }
}

fn category_directive(line: &[char]) -> (r: Option<Vec<char>>)
    ensures
        match r {
            Some(v) => category_directive_spec(line@) == Some(v@),
            None => category_directive_spec(line@) is None,
        },
{
    let s = trim(line);
    let lowered = to_lowercase(&s);
    match directive_body_of(&s, &lowered, "[category:", 10) {
        Some(label) => category_code(&label),
        None => match directive_body_of(&s, &lowered, "[类别:", 4) {
            Some(label) => category_code(&label),
            None => None,
        },
    }
}

fn fact_kind_directive(line: &[char]) -> (r: Option<Vec<char>>)
    ensures
        match r {
            Some(v) => fact_kind_directive_spec(line@) == Some(v@),
            None => fact_kind_directive_spec(line@) is None,
        },
{
    let s = trim(line);
    let lowered = to_lowercase(&s);
    match directive_body_of(&s, &lowered, "[fact_kind:", 11) {
        Some(k) => if valid_fact_kind(&k) {
            Some(k)
        } else {
            None
        },
        None => None,
    }
}

/// The tone set by a `[TONE:…]` line (case-insensitive opening), when it is
/// one of the known tones.
pub fn try_parse_tone_directive(line: &str) -> (r: Option<String>)
    ensures
        match r {
            Some(v) => tone_directive_spec(line@) == Some(v@),
            None => tone_directive_spec(line@) is None,
        },
{
    match tone_directive(&chars_of(line)) {
        Some(v) => Some(string_of(&v)),
        None => None,
    }
}

/// The category code (`core_fact`, `important`, `casual`) set by a
/// `[CATEGORY:…]` or `[类别:…]` line with a known label.
pub fn try_parse_category_directive(line: &str) -> (r: Option<String>)
    ensures
        match r {
            Some(v) => category_directive_spec(line@) == Some(v@),
            None => category_directive_spec(line@) is None,
        },
{
    match category_directive(&chars_of(line)) {
        Some(v) => Some(string_of(&v)),
        None => None,
    }
}

/// The fact kind set by a `[FACT_KIND:…]` line, when it is a known kind.
pub fn try_parse_fact_kind_directive(line: &str) -> (r: Option<String>)
    ensures
        match r {
            Some(v) => fact_kind_directive_spec(line@) == Some(v@),
            None => fact_kind_directive_spec(line@) is None,
        },
{
    match fact_kind_directive(&chars_of(line)) {
        Some(v) => Some(string_of(&v)),
        None => None,
    }
}

} // verus!

verus! {

// ---------------------------------------------------------------------------
// Memory lines.

/// `x` trimmed when that is non-empty, else `default`.
pub open spec fn field_or(x: Seq<char>, default: Seq<char>) -> Seq<char> {
    if trim_spec(x).len() > 0 {
        trim_spec(x)
    } else {
        default
    }
}

/// A pipe line `content|T_start|T_end|category|tone|importance|fact_kind`,
/// with the directives' values as defaults for the empty or missing fields.
/// The content must be more than two bytes long; the end anchor may be left
/// empty or repeat the start.
pub open spec fn pipe_line_spec(
    line: Seq<char>,
    tone: Seq<char>,
    category: Seq<char>,
    fact_kind: Seq<char>,
) -> Option<LineSpec> {
    let s = trim_spec(line);
    if starts_with_spec(s, "["@) || !contains_spec(s, "|"@) {
        None
    } else {
        let parts = split_spec(s, '|');
        let content = trim_spec(parts[0]);
        if parts.len() < 3 || content.len() == 0 || utf8_len(content) <= 2 {
            None
        } else {
            let a0 = trim_spec(parts[1]);
            let a1 = trim_spec(parts[2]);
            match parse_anchor_spec(a0) {
                None => None,
                Some(first) => {
                    let start = first.0;
                    let end_anchor = if a1.len() == 0 || a1 == a0 {
                        Some(start)
                    } else {
                        match parse_anchor_spec(a1) {
                            Some(r) => Some(r.0),
                            None => None,
                        }
                    };
                    match end_anchor {
                        None => None,
                        Some(end) => Some(
                            LineSpec {
                                content,
                                source_turn_start: start,
                                source_turn_end: end,
                                importance: if parts.len() > 5 {
                                    ImportanceSpec::Score(trim_spec(parts[5]))
                                } else {
                                    ImportanceSpec::Unspecified
                                },
                                emotional_tone: if parts.len() > 4 {
                                    field_or(parts[4], tone)
                                } else {
                                    tone
                                },
                                memory_category: if parts.len() > 3 {
                                    field_or(parts[3], category)
                                } else {
                                    category
                                },
                                fact_kind: if parts.len() > 6 {
                                    field_or(parts[6], fact_kind)
                                } else {
                                    fact_kind
                                },
                            },
                        ),
                    }
                },
            }
        }
    }
}

fn field_or_exec(x: &[char], default: &[char]) -> (r: Vec<char>)
    ensures
        r@ == field_or(x@, default@),
{
    let t = trim(x);
    if t.len() > 0 {
        t
    } else {
        sub_chars(default, 0, default.len())
    }
}

fn copy_chars(v: &[char]) -> (r: Vec<char>)
    ensures
        r@ == v@,
{
    let r = sub_chars(v, 0, v.len());
    proof {
        assert(v@.subrange(0, v@.len() as int) =~= v@);
    }
    r
}

fn pipe_line(line: &[char], tone: &[char], category: &[char], fact_kind: &[char]) -> (r: Option<
    ParsedMemoryLine,
>)
    ensures
        match r {
            Some(m) => pipe_line_spec(line@, tone@, category@, fact_kind@) == Some(m.view()),
            None => pipe_line_spec(line@, tone@, category@, fact_kind@) is None,
        },
{
    let s = trim(line);
    if starts_with_str(&s, "[") || !contains_str(&s, "|") {
        return None;
    }
    let parts = split_char(&s, '|');
    proof {
        assert(views(parts@)[0] == parts@[0]@);
    }
    let content = trim(&parts[0]);
    if parts.len() < 3 || content.len() == 0 || utf8_len_upto(&content, 2).is_some() {
        return None;
    }
    let a0 = trim(&parts[1]);
    let a1 = trim(&parts[2]);
    proof {
        assert(views(parts@)[1] == parts@[1]@);
        assert(views(parts@)[2] == parts@[2]@);
    }
    let start = match parse_anchor_chars(&a0) {
        Some(r) => r.0,
        None => return None,
    };
    let end = if a1.len() == 0 || chars_eq(&a1, &a0) {
        start
    } else {
        match parse_anchor_chars(&a1) {
            Some(r) => r.0,
            None => return None,
        }
    };
    let importance = if parts.len() > 5 {
        proof {
            assert(views(parts@)[5] == parts@[5]@);
        }
        ImportanceSource::Score(string_of(&trim(&parts[5])))
    } else {
        ImportanceSource::Unspecified
    };
    let emotional_tone = if parts.len() > 4 {
        proof {
            assert(views(parts@)[4] == parts@[4]@);
        }
        field_or_exec(&parts[4], tone)
    } else {
        copy_chars(tone)
    };
    let memory_category = if parts.len() > 3 {
        proof {
            assert(views(parts@)[3] == parts@[3]@);
        }
        field_or_exec(&parts[3], category)
    } else {
        copy_chars(category)
    };
    let fk = if parts.len() > 6 {
        proof {
            assert(views(parts@)[6] == parts@[6]@);
        }
        field_or_exec(&parts[6], fact_kind)
    } else {
        copy_chars(fact_kind)
    };
    Some(
        ParsedMemoryLine {
            content: string_of(&content),
            source_turn_start: start,
            source_turn_end: end,
            importance,
            emotional_tone: string_of(&emotional_tone),
            memory_category: string_of(&memory_category),
            fact_kind: string_of(&fk),
        },
    )
}

} // verus!

verus! {

/// Leading `普通记忆：` / `重要记忆：` label.
pub const MEMORY_LABEL_PATTERN: &'static str = r"^(?:普通记忆|重要记忆)\s*[：:]\s*";

/// Leading list markers (`-`, `*`, `•`, `1.`, `2)`, `3、`).
pub const LIST_MARKER_PATTERN: &'static str = r"^(?:[\-\*\u{2022}]\s*|\d+[\.\)、]\s*)+";

/// `[IMPORTANT][T1-T3] content` (or `[重要]`), case-insensitive.
pub const IMPORTANT_LINE_PATTERN: &'static str = r"(?i)^\[(?:IMPORTANT|重要)\]\s*\[(T\d+(?:-T?\d+)?)\]\s*(.+)$";

/// `[NORMAL:3][T2] content` (or `[普通:3]`), case-insensitive.
pub const NORMAL_LINE_PATTERN: &'static str = r"(?i)^\[(?:NORMAL|普通)\s*:\s*([1-5])\]\s*\[(T\d+(?:-T?\d+)?)\]\s*(.+)$";

/// Leading `用户张三:` / `user X:` speaker label.
pub const USER_LABEL_PATTERN: &'static str = r"(?i)^(?:用户|user)\s*[^\r\n：:]{1,40}[：:]";

/// Group `i` of a match, if it took part.
pub open spec fn group(g: Seq<Option<Seq<char>>>, i: int) -> Option<Seq<char>> {
    if 0 <= i < g.len() {
        g[i]
    } else {
        None
    }
}

/// `s` without a leading memory label and then without leading list markers;
/// `None` when a pattern does not compile.
pub open spec fn strip_memory_prefix_spec(s: Seq<char>) -> Option<Seq<char>> {
    match regex_replace_first_of(MEMORY_LABEL_PATTERN@, s, ""@) {
        None => None,
        Some(a) => regex_replace_first_of(LIST_MARKER_PATTERN@, a, ""@),
    }
}

/// The memory a tagged line yields once its tag is read.
pub open spec fn tagged_finish_spec(
    is_important: bool,
    level: u32,
    anchor: Seq<char>,
    text: Seq<char>,
    tone: Seq<char>,
    category: Seq<char>,
    fact_kind: Seq<char>,
) -> Option<LineSpec> {
    match parse_anchor_spec(anchor) {
        None => None,
        Some(range) => match regex_replace_first_of(USER_LABEL_PATTERN@, text, ""@) {
            None => None,
            Some(u) => {
                let content = trim_spec(u);
                if content.len() == 0 || utf8_len(content) <= 2 {
                    None
                } else {
                    Some(
                        LineSpec {
                            content,
                            source_turn_start: range.0,
                            source_turn_end: range.1,
                            importance: ImportanceSpec::Tagged { is_important, level },
                            emotional_tone: tone,
                            memory_category: category,
                            fact_kind,
                        },
                    )
                }
            },
        },
    }
}

/// A tagged line `[IMPORTANT][T…] content` (level 5, important) or
/// `[NORMAL:n][T…] content` (level n), after stripping a memory label and list
/// markers; the content loses a leading speaker label and must be more than
/// two bytes long.
pub open spec fn tagged_line_spec(
    line: Seq<char>,
    tone: Seq<char>,
    category: Seq<char>,
    fact_kind: Seq<char>,
) -> Option<LineSpec> {
    match strip_memory_prefix_spec(trim_spec(line)) {
        None => None,
        Some(cleaned) => match (
            regex_captures_of(IMPORTANT_LINE_PATTERN@, cleaned),
            regex_captures_of(NORMAL_LINE_PATTERN@, cleaned),
        ) {
            (Some(Some(g)), Some(_)) => match (group(g, 1), group(g, 2)) {
                (Some(anchor), Some(text)) => tagged_finish_spec(
                    true,
                    5,
                    anchor,
                    text,
                    tone,
                    category,
                    fact_kind,
                ),
                _ => None,
            },
            (Some(None), Some(Some(g))) => match (group(g, 1), group(g, 2), group(g, 3)) {
                (Some(level_text), Some(anchor), Some(text)) => match parse_u32_spec(level_text) {
                    Some(level) => tagged_finish_spec(
                        false,
                        level,
                        anchor,
                        text,
                        tone,
                        category,
                        fact_kind,
                    ),
                    None => None,
                },
                _ => None,
            },
            _ => None,
        },
    }
}

fn group_of(g: &Vec<Option<Vec<char>>>, i: usize) -> (r: Option<Vec<char>>)
    ensures
        match r {
            Some(v) => group(crate::outside::groups_view(*g), i as int) == Some(v@),
            None => group(crate::outside::groups_view(*g), i as int) is None,
        },
{
    if i < g.len() {
        match &g[i] {
            Some(v) => Some(copy_chars(v)),
            None => None,
        }
    } else {
        None
    }
}

fn strip_memory_prefix(s: &[char]) -> (r: Option<Vec<char>>)
    ensures
        crate::outside::opt_chars(r) == strip_memory_prefix_spec(s@),
{
    match regex_replace_first(MEMORY_LABEL_PATTERN, s, "") {
        None => None,
        Some(a) => regex_replace_first(LIST_MARKER_PATTERN, &a, ""),
    }
}

fn tagged_finish(
    is_important: bool,
    level: u32,
    anchor: &[char],
    text: &[char],
    tone: &[char],
    category: &[char],
    fact_kind: &[char],
) -> (r: Option<ParsedMemoryLine>)
    ensures
        match r {
            Some(m) => tagged_finish_spec(
                is_important,
                level,
                anchor@,
                text@,
                tone@,
                category@,
                fact_kind@,
            ) == Some(m.view()),
            None => tagged_finish_spec(
                is_important,
                level,
                anchor@,
                text@,
                tone@,
                category@,
                fact_kind@,
            ) is None,
        },
{
    let range = match parse_anchor_chars(anchor) {
        Some(r) => r,
        None => return None,
    };
    let u = match regex_replace_first(USER_LABEL_PATTERN, text, "") {
        Some(u) => u,
        None => return None,
    };
    let content = trim(&u);
    if content.len() == 0 || utf8_len_upto(&content, 2).is_some() {
        return None;
    }
    Some(
        ParsedMemoryLine {
            content: string_of(&content),
            source_turn_start: range.0,
            source_turn_end: range.1,
            importance: ImportanceSource::Tagged { is_important, level },
            emotional_tone: string_of(tone),
            memory_category: string_of(category),
            fact_kind: string_of(fact_kind),
        },
    )
}

fn tagged_line(line: &[char], tone: &[char], category: &[char], fact_kind: &[char]) -> (r: Option<
    ParsedMemoryLine,
>)
    ensures
        match r {
            Some(m) => tagged_line_spec(line@, tone@, category@, fact_kind@) == Some(m.view()),
            None => tagged_line_spec(line@, tone@, category@, fact_kind@) is None,
        },
{
    let s = trim(line);
    let cleaned = match strip_memory_prefix(&s) {
        Some(c) => c,
        None => return None,
    };
    let important = regex_captures(IMPORTANT_LINE_PATTERN, &cleaned);
    let normal = regex_captures(NORMAL_LINE_PATTERN, &cleaned);
    match (important, normal) {
        (Some(Some(g)), Some(_)) => match (group_of(&g, 1), group_of(&g, 2)) {
            (Some(anchor), Some(text)) => tagged_finish(
                true,
                5,
                &anchor,
                &text,
                tone,
                category,
                fact_kind,
            ),
            _ => None,
        },
        (Some(None), Some(Some(g))) => match (group_of(&g, 1), group_of(&g, 2), group_of(&g, 3)) {
            (Some(level_text), Some(anchor), Some(text)) => match parse_u32(&level_text) {
                Some(level) => tagged_finish(
                    false,
                    level,
                    &anchor,
                    &text,
                    tone,
                    category,
                    fact_kind,
                ),
                None => None,
            },
            _ => None,
        },
        _ => None,
    }
}

} // verus!

verus! {

// ---------------------------------------------------------------------------
// The whole reply.

/// Directive values in force while the reply is read.
pub struct ParseState {
    pub tone: Seq<char>,
    pub category: Seq<char>,
    pub fact_kind: Seq<char>,
}

/// State before the first line: no tone, category `important`, no fact kind.
pub open spec fn initial_state() -> ParseState {
    ParseState { tone: Seq::empty(), category: "important"@, fact_kind: Seq::empty() }
}

/// Trimmed pieces that are not empty.
pub open spec fn nonempty_trimmed(pieces: Seq<Seq<char>>) -> Seq<Seq<char>> {
    pieces.map_values(|x: Seq<char>| trim_spec(x)).filter(|x: Seq<char>| x.len() > 0)
}

/// Some piece, trimmed, starts with `[`.
pub open spec fn has_directive_piece(pieces: Seq<Seq<char>>) -> bool {
    exists|i: int| 0 <= i < pieces.len() && starts_with_spec(trim_spec(#[trigger] pieces[i]), "["@)
}

/// Lines of the trimmed reply `t`: a one-line reply with `|` is split at `|`
/// when one of its pieces is a directive, else kept whole; otherwise it is
/// split into lines. Pieces are trimmed and empty ones dropped.
pub open spec fn reply_lines_spec(t: Seq<char>) -> Seq<Seq<char>> {
    if contains_spec(t, "|"@) && !contains_spec(t, "\n"@) {
        if has_directive_piece(split_spec(t, '|')) {
            nonempty_trimmed(split_spec(t, '|'))
        } else {
            seq![t]
        }
    } else {
        nonempty_trimmed(split_spec(t, '\n'))
    }
}

/// What one line does: comments, "nothing to remember" lines and directives
/// yield no memory (directives update the state); otherwise a pipe line, or
/// failing that a tagged line, may yield one.
pub open spec fn step_spec(st: ParseState, line: Seq<char>) -> (ParseState, Option<LineSpec>) {
    if line.len() == 0 || line[0] == '#' {
        (st, None)
    } else if no_memory_spec(line) {
        (st, None)
    } else {
        match tone_directive_spec(line) {
            Some(t) => (ParseState { tone: t, ..st }, None),
            None => match category_directive_spec(line) {
                Some(c) => (ParseState { category: c, ..st }, None),
                None => match fact_kind_directive_spec(line) {
                    Some(k) => (ParseState { fact_kind: k, ..st }, None),
                    None => match pipe_line_spec(line, st.tone, st.category, st.fact_kind) {
                        Some(m) => (st, Some(m)),
                        None => (st, tagged_line_spec(line, st.tone, st.category, st.fact_kind)),
                    },
                },
            },
        }
    }
}

pub open spec fn opt_seq<T>(o: Option<T>) -> Seq<T> {
    match o {
        Some(x) => seq![x],
        None => Seq::empty(),
    }
}

/// Memories of `lines`, read in order from state `st`.
pub open spec fn parse_lines_spec(lines: Seq<Seq<char>>, st: ParseState) -> Seq<LineSpec>
    decreases lines.len(),
{
    if lines.len() == 0 {
        Seq::empty()
    } else {
        let (next, m) = step_spec(st, lines[0]);
        opt_seq(m) + parse_lines_spec(lines.drop_first(), next)
    }
}

/// Memories of a whole reply.
pub open spec fn parse_reply_spec(content: Seq<char>) -> Seq<LineSpec> {
    let t = trim_spec(content);
    if t.len() == 0 {
        Seq::empty()
    } else {
        parse_lines_spec(reply_lines_spec(t), initial_state())
    }
}

fn trimmed_nonempty(pieces: Vec<Vec<char>>) -> (r: Vec<Vec<char>>)
    ensures
        views(r@) == nonempty_trimmed(views(pieces@)),
{
    let mut r: Vec<Vec<char>> = Vec::new();
    let mut i: usize = 0;
    let ghost ps = views(pieces@);
    proof {
        assert(ps.take(0).map_values(|x: Seq<char>| trim_spec(x)).filter(
            |x: Seq<char>| x.len() > 0,
        ) =~= Seq::<Seq<char>>::empty());
        assert(views(r@) =~= Seq::<Seq<char>>::empty());
    }
    while i < pieces.len()
        invariant
            i <= pieces@.len(),
            ps == views(pieces@),
            views(r@) == nonempty_trimmed(ps.take(i as int)),
        decreases pieces.len() - i,
    {
        let t = trim(&pieces[i]);
        proof {
            assert(ps.take(i + 1).drop_last() =~= ps.take(i as int));
            assert(ps.take(i + 1).map_values(|x: Seq<char>| trim_spec(x)) =~= ps.take(
                i as int,
            ).map_values(|x: Seq<char>| trim_spec(x)).push(t@));
            reveal_with_fuel(Seq::filter, 1);
            assert(ps.take(i + 1).map_values(|x: Seq<char>| trim_spec(x)).drop_last() =~= ps.take(
                i as int,
            ).map_values(|x: Seq<char>| trim_spec(x)));
        }
        if t.len() > 0 {
            let ghost before = views(r@);
            r.push(t);
            proof {
                assert(views(r@) =~= before.push(t@));
            }
        }
        i = i + 1;
    }
    proof {
        assert(ps.take(ps.len() as int) =~= ps);
    }
    r
}

fn has_directive(pieces: &Vec<Vec<char>>) -> (r: bool)
    ensures
        r == has_directive_piece(views(pieces@)),
{
    let mut i: usize = 0;
    while i < pieces.len()
        invariant
            i <= pieces@.len(),
            forall|t: int|
                0 <= t < i ==> !starts_with_spec(trim_spec(#[trigger] views(pieces@)[t]), "["@),
        decreases pieces.len() - i,
    {
        let t = trim(&pieces[i]);
        if starts_with_str(&t, "[") {
            proof {
                assert(views(pieces@)[i as int] == pieces@[i as int]@);
            }
            return true;
        }
        proof {
            assert(views(pieces@)[i as int] == pieces@[i as int]@);
        }
        i = i + 1;
    }
    false
}

fn reply_lines(t: &[char]) -> (r: Vec<Vec<char>>)
    ensures
        views(r@) == reply_lines_spec(t@),
{
    if contains_str(t, "|") && !contains_str(t, "\n") {
        let pieces = split_char(t, '|');
        if has_directive(&pieces) {
            trimmed_nonempty(pieces)
        } else {
            let mut r: Vec<Vec<char>> = Vec::new();
            r.push(copy_chars(t));
            proof {
                assert(views(r@) =~= seq![t@]);
            }
            r
        }
    } else {
        trimmed_nonempty(split_char(t, '\n'))
    }
}

fn step(
    tone: &mut Vec<char>,
    category: &mut Vec<char>,
    fact_kind: &mut Vec<char>,
    line: &[char],
) -> (r: Option<ParsedMemoryLine>)
    ensures
        ({
            let (next, m) = step_spec(
                ParseState { tone: old(tone)@, category: old(category)@, fact_kind: old(fact_kind)@ },
                line@,
            );
            &&& final(tone)@ == next.tone
            &&& final(category)@ == next.category
            &&& final(fact_kind)@ == next.fact_kind
            &&& match r {
                Some(x) => m == Some(x.view()),
                None => m is None,
            }
        }),
{
    if line.len() == 0 || line[0] == '#' {
        return None;
    }
    if no_memory_chars(line) {
        return None;
    }
    if let Some(t) = tone_directive(line) {
        *tone = t;
        return None;
    }
    if let Some(c) = category_directive(line) {
        *category = c;
        return None;
    }
    if let Some(k) = fact_kind_directive(line) {
        *fact_kind = k;
        return None;
    }
    match pipe_line(line, tone, category, fact_kind) {
        Some(m) => Some(m),
        None => tagged_line(line, tone, category, fact_kind),
    }
}

/// Every memory line of the extraction reply, in order, with the tone,
/// category and fact kind that the directives before it set, and each
/// line's importance as written (see `parse_reply_spec`).
pub fn parse_extraction_lines(content: &str) -> (r: Vec<ParsedMemoryLine>)
    ensures
        r@.map_values(|m: ParsedMemoryLine| m.view()) == parse_reply_spec(content@),
{
    let t = trim(&chars_of(content));
    let mut r: Vec<ParsedMemoryLine> = Vec::new();
    if t.len() == 0 {
        proof {
            assert(r@.map_values(|m: ParsedMemoryLine| m.view()) =~= Seq::<LineSpec>::empty());
        }
        return r;
    }
    let lines = reply_lines(&t);
    let ghost ls = views(lines@);
    let mut tone: Vec<char> = Vec::new();
    let mut category: Vec<char> = chars_of("important");
    let mut fact_kind: Vec<char> = Vec::new();
    let mut i: usize = 0;
    proof {
        assert(ls.skip(0) =~= ls);
        assert(r@.map_values(|m: ParsedMemoryLine| m.view()) =~= Seq::<LineSpec>::empty());
        assert(tone@ =~= Seq::<char>::empty());
        assert(fact_kind@ =~= Seq::<char>::empty());
    }
    while i < lines.len()
        invariant
            i <= lines@.len(),
            ls == views(lines@),
            ls == reply_lines_spec(t@),
            r@.map_values(|m: ParsedMemoryLine| m.view()) + parse_lines_spec(
                ls.skip(i as int),
                ParseState { tone: tone@, category: category@, fact_kind: fact_kind@ },
            ) == parse_lines_spec(ls, initial_state()),
        decreases lines.len() - i,
    {
        let ghost st = ParseState { tone: tone@, category: category@, fact_kind: fact_kind@ };
        let ghost before = r@.map_values(|m: ParsedMemoryLine| m.view());
        let m = step(&mut tone, &mut category, &mut fact_kind, &lines[i]);
        proof {
            assert(ls[i as int] == lines@[i as int]@);
            assert(ls.skip(i as int).drop_first() =~= ls.skip(i + 1));
            assert(ls.skip(i as int)[0] == ls[i as int]);
        }
        match m {
            Some(x) => {
                r.push(x);
                proof {
                    assert(r@.map_values(|m: ParsedMemoryLine| m.view()) =~= before.push(x.view()));
                    assert(before.push(x.view()) + parse_lines_spec(
                        ls.skip(i + 1),
                        ParseState { tone: tone@, category: category@, fact_kind: fact_kind@ },
                    ) =~= before + (seq![x.view()] + parse_lines_spec(
                        ls.skip(i + 1),
                        ParseState { tone: tone@, category: category@, fact_kind: fact_kind@ },
                    )));
                }
            },
            None => {
                proof {
                    assert(seq![] + parse_lines_spec(
                        ls.skip(i + 1),
                        ParseState { tone: tone@, category: category@, fact_kind: fact_kind@ },
                    ) =~= parse_lines_spec(
                        ls.skip(i + 1),
                        ParseState { tone: tone@, category: category@, fact_kind: fact_kind@ },
                    ));
                }
            },
        }
        i = i + 1;
    }
    proof {
        assert(parse_lines_spec(ls.skip(lines@.len() as int), ParseState { tone: tone@, category: category@, fact_kind: fact_kind@ }) =~= Seq::<LineSpec>::empty());
        assert(r@.map_values(|m: ParsedMemoryLine| m.view()) + Seq::<LineSpec>::empty() =~= r@.map_values(|m: ParsedMemoryLine| m.view()));
    }
    r
}

} // verus!

verus! {

/// Every anchor that parses names a non-empty range of positive turns.
pub proof fn law_parsed_anchor_well_formed(anchor: Seq<char>)
    ensures
        match parse_anchor_spec(anchor) {
            Some((s, e)) => 0 < s && s <= e,
            None => true,
        },
{
}

/// A memory read from a reply names positive turns and has content longer
/// than two bytes.
pub open spec fn names_positive_turns(m: LineSpec) -> bool {
    &&& m.source_turn_start >= 1
    &&& m.source_turn_end >= 1
    &&& utf8_len(m.content) > 2
}

proof fn lemma_step_names_positive_turns(st: ParseState, line: Seq<char>)
    ensures
        match step_spec(st, line).1 {
            Some(m) => names_positive_turns(m),
            None => true,
        },
{
    let t = trim_spec(line);
    law_parsed_anchor_well_formed(trim_spec(split_spec(t, '|')[1]));
    if split_spec(t, '|').len() > 2 {
        law_parsed_anchor_well_formed(trim_spec(split_spec(t, '|')[2]));
    }
    match strip_memory_prefix_spec(t) {
        Some(cleaned) => {
            match regex_captures_of(IMPORTANT_LINE_PATTERN@, cleaned) {
                Some(Some(g)) => match group(g, 1) {
                    Some(a) => law_parsed_anchor_well_formed(a),
                    None => {},
                },
                _ => {},
            }
            match regex_captures_of(NORMAL_LINE_PATTERN@, cleaned) {
                Some(Some(g)) => match group(g, 2) {
                    Some(a) => law_parsed_anchor_well_formed(a),
                    None => {},
                },
                _ => {},
            }
        },
        None => {},
    }
}

proof fn lemma_lines_name_positive_turns(lines: Seq<Seq<char>>, st: ParseState)
    ensures
        forall|i: int|
            0 <= i < parse_lines_spec(lines, st).len() ==> names_positive_turns(
                #[trigger] parse_lines_spec(lines, st)[i],
            ),
    decreases lines.len(),
{
    if lines.len() > 0 {
        let (next, m) = step_spec(st, lines[0]);
        lemma_step_names_positive_turns(st, lines[0]);
        lemma_lines_name_positive_turns(lines.drop_first(), next);
        let rest = parse_lines_spec(lines.drop_first(), next);
        let all = opt_seq(m) + rest;
        assert(parse_lines_spec(lines, st) == all);
        assert forall|i: int| 0 <= i < all.len() implies names_positive_turns(#[trigger] all[i]) by {
            if i < opt_seq(m).len() {
                assert(all[i] == m.unwrap());
            } else {
                assert(all[i] == rest[i - opt_seq(m).len()]);
            }
        }
    }
}

/// Every memory read from any reply of the extraction model names positive
/// turns (start and end at least 1) and has content longer than two bytes.
pub proof fn law_parsed_reply_names_positive_turns(content: Seq<char>)
    ensures
        forall|i: int|
            0 <= i < parse_reply_spec(content).len() ==> names_positive_turns(
                #[trigger] parse_reply_spec(content)[i],
            ),
{
    let t = trim_spec(content);
    if t.len() > 0 {
        lemma_lines_name_positive_turns(reply_lines_spec(t), initial_state());
    }
}

} // verus!

verus! {

/// A reflection text as compared: trimmed, every run of whitespace (as the
/// pattern `\s+` matches it) removed, lower-cased; empty where the pattern
/// would not compile.
pub open spec fn reflection_text_spec(text: Seq<char>) -> Seq<char> {
    match regex_replace_all_of(r"\s+"@, trim_spec(text), ""@) {
        Some(c) => lowercase_of(c),
        None => Seq::empty(),
    }
}

/// `text` trimmed, without whitespace, lower-cased.
pub fn normalize_reflection_text(text: &str) -> (r: String)
    ensures
        r@ == reflection_text_spec(text@),
{
    match regex_replace_all(r"\s+", &trim(&chars_of(text)), "") {
        Some(c) => string_of(&to_lowercase(&c)),
        None => String::new(),
    }
}

} // verus!

verus! {

/// A reflection reply's fields, as read: each holds the value under its key
/// where that value is of the kind named (a boolean, a text).
pub struct ReflectionFields {
    pub has_conflict: Option<bool>,
    pub conflict_type: Option<String>,
    pub action: Option<String>,
    pub summary: Option<String>,
    pub reason: Option<String>,
}

/// A parsed reflection, its confidence aside.
pub struct ReflectionParse {
    pub has_conflict: bool,
    pub conflict_type: String,
    pub action: String,
    pub summary: String,
    pub reason: String,
}

/// The text held where it is not empty, otherwise `default`.
pub open spec fn nonempty_or(o: Option<String>, default: Seq<char>) -> Seq<char> {
    match o {
        Some(s) => if s@.len() > 0 { s@ } else { default },
        None => default,
    }
}

/// The text held, trimmed; empty where there is none.
pub open spec fn trimmed_or_empty(o: Option<String>) -> Seq<char> {
    match o {
        Some(s) => trim_spec(s@),
        None => Seq::empty(),
    }
}

fn nonempty_or_exec(o: &Option<String>, default: &str) -> (r: String)
    ensures
        r@ == nonempty_or(*o, default@),
{
    match o {
        Some(s) => {
            if chars_of(s.as_str()).len() > 0 {
                s.clone()
            } else {
                default.to_string()
            }
        },
        None => default.to_string(),
    }
}

fn trimmed_or_empty_exec(o: &Option<String>) -> (r: String)
    ensures
        r@ == trimmed_or_empty(*o),
{
    match o {
        Some(s) => string_of(&trim(&chars_of(s.as_str()))),
        None => String::new(),
    }
}

/// The reflection a reply's fields give: no conflict unless it says so; the
/// conflict type "none" and the action "keep_both" where they are missing
/// or empty; summary and reason trimmed, empty where missing.
pub fn reflection_parse(fields: &ReflectionFields) -> (r: ReflectionParse)
    ensures
        r.has_conflict == (match fields.has_conflict {
            Some(b) => b,
            None => false,
        }),
        r.conflict_type@ == nonempty_or(fields.conflict_type, "none"@),
        r.action@ == nonempty_or(fields.action, "keep_both"@),
        r.summary@ == trimmed_or_empty(fields.summary),
        r.reason@ == trimmed_or_empty(fields.reason),
{
    ReflectionParse {
        has_conflict: match fields.has_conflict {
            Some(b) => b,
            None => false,
        },
        conflict_type: nonempty_or_exec(&fields.conflict_type, "none"),
        action: nonempty_or_exec(&fields.action, "keep_both"),
        summary: trimmed_or_empty_exec(&fields.summary),
        reason: trimmed_or_empty_exec(&fields.reason),
    }
}

} // verus!

verus! {

/// Whether the JSON object slice of a reply would run backwards (see
/// `json_object_backwards`).
pub fn json_object_runs_backwards(content: &str) -> (r: bool)
    ensures
        r == json_object_backwards(content@),
{
    let t = trim(&chars_of(content));
    if t.len() == 0 {
        return false;
    }
    proof {
        reveal_strlit("{");
        reveal_strlit("}");
        lemma_first_index_bounds(t@, '{');
        lemma_last_index_bounds(t@, '}');
    }
    if starts_with_str(&t, "{") && ends_with_str(&t, "}") {
        return false;
    }
    match (first_index(&t, '{'), last_index(&t, '}')) {
        (Some(a), Some(b)) => b < a && a - b > 1,
        _ => false,
    }
}

} // verus!

verus! {

/// Each category label has its own code: 核心事实 is `core_fact`, 重要 is
/// `important`, 闲聊 is `casual`, and no other label has a code; so no two
/// labels share a code.
pub proof fn law_category_labels_have_their_own_codes(label: Seq<char>)
    ensures
        category_code_spec(label) == Some("core_fact"@) <==> label == "核心事实"@,
        category_code_spec(label) == Some("important"@) <==> label == "重要"@,
        category_code_spec(label) == Some("casual"@) <==> label == "闲聊"@,
        category_code_spec(label) is None <==> (label != "核心事实"@ && label != "重要"@ && label
            != "闲聊"@),
{
    reveal_strlit("core_fact");
    reveal_strlit("important");
    reveal_strlit("casual");
    reveal_strlit("核心事实");
    reveal_strlit("重要");
    reveal_strlit("闲聊");
    assert("core_fact"@ != "important"@ && "core_fact"@ != "casual"@ && "important"@ != "casual"@) by {
        assert("core_fact"@[0] != "important"@[0]);
        assert("core_fact"@.len() != "casual"@.len());
        assert("important"@.len() != "casual"@.len());
    }
    assert("核心事实"@ != "重要"@ && "核心事实"@ != "闲聊"@ && "重要"@ != "闲聊"@) by {
        assert("核心事实"@.len() != "重要"@.len());
        assert("核心事实"@.len() != "闲聊"@.len());
        assert("重要"@[0] != "闲聊"@[0]);
    }
}

/// A category directive line sets the category that the memory lines after
/// it take (where they give none of their own): reading it and then the
/// other lines is reading the other lines with that category in force.
pub proof fn law_category_directive_sets_following_category(
    st: ParseState,
    directive: Seq<char>,
    rest: Seq<Seq<char>>,
)
    requires
        category_directive_spec(directive) is Some,
        directive.len() > 0 && directive[0] != '#',
        !no_memory_spec(directive),
    ensures
        parse_lines_spec(seq![directive] + rest, st) == parse_lines_spec(
            rest,
            ParseState { category: category_directive_spec(directive).unwrap(), ..st },
        ),
{
    reveal_strlit("[tone:");
    reveal_strlit("[category:");
    reveal_strlit("[类别:");
    let s = trim_spec(directive);
    let low = lowercase_of(s);
    if starts_with_spec(low, "[tone:"@) {
        assert(low.subrange(0, 6)[1] == low[1]);
        assert(low[1] == 't');
        if starts_with_spec(low, "[category:"@) {
            assert(low.subrange(0, 10)[1] == low[1]);
            assert(low[1] == 'c');
        }
        if starts_with_spec(low, "[类别:"@) {
            assert(low.subrange(0, 4)[1] == low[1]);
            assert(low[1] == '类');
        }
    }
    assert(tone_directive_spec(directive) is None);
    let lines = seq![directive] + rest;
    assert(lines[0] == directive);
    assert(lines.drop_first() =~= rest);
}

} // verus!
