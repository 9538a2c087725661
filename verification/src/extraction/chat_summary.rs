//! A rule-based summary of a conversation, used when no model is at hand.
use vstd::prelude::*;
use crate::text::{chars_of, concat_chars, decimal, decimal_spec, string_of};

verus! {

/// Summaries of conversations made with the model `model`.
pub struct ChatSummaryService {
    pub model: String,
}

/// The first `n` characters of `s` (all of them when it is shorter).
pub open spec fn first_chars(s: Seq<char>, n: nat) -> Seq<char> {
    if s.len() <= n {
        s
    } else {
        s.take(n as int)
    }
}

/// The rule-based summary: a placeholder for no messages, the count for
/// one or two, else the count with the first 80 characters of the first
/// and of the last message.
pub open spec fn simple_summary_spec(messages: Seq<Seq<char>>) -> Seq<char> {
    let n = messages.len();
    if n == 0 {
        "（暂无对话）"@
    } else if n <= 2 {
        "简短对话（"@ + decimal_spec(n) + "条消息）"@
    } else {
        "共"@ + decimal_spec(n) + "条消息，从「"@ + first_chars(messages[0], 80) + "…」到「"@
            + first_chars(messages[n - 1], 80) + "…」"@
    }
}

fn first_chars_exec(s: &str, n: usize) -> (r: Vec<char>)
    ensures
        r@ == first_chars(s@, n as nat),
{
    let c = chars_of(s);
    if c.len() <= n {
        c
    } else {
        let r = crate::text::sub_chars(&c, 0, n);
        proof {
            assert(r@ =~= s@.take(n as int));
        }
        r
    }
}

impl ChatSummaryService {
    /// Summaries made with `model`.
    pub fn new(model: &str) -> (r: Self)
        ensures
            r.model@ == model@,
    {
        ChatSummaryService { model: model.to_string() }
    }

    /// The rule-based summary of `messages`.
    pub fn summarize_simple(messages: &[String]) -> (r: String)
        ensures
            r@ == simple_summary_spec(messages@.map_values(|m: String| m@)),
    {
        let ghost ms = messages@.map_values(|m: String| m@);
        let n = messages.len();
        if n == 0 {
            return "（暂无对话）".to_string();
        }
        let count = decimal(n);
        if n <= 2 {
            let t = concat_chars(&concat_chars(&chars_of("简短对话（"), &count), &chars_of("条消息）"));
            return string_of(&t);
        }
        let first = first_chars_exec(messages[0].as_str(), 80);
        let last = first_chars_exec(messages[n - 1].as_str(), 80);
        let t = concat_chars(
            &concat_chars(
                &concat_chars(
                    &concat_chars(&concat_chars(&concat_chars(&chars_of("共"), &count), &chars_of("条消息，从「")), &first),
                    &chars_of("…」到「"),
                ),
                &last,
            ),
            &chars_of("…」"),
        );
        proof {
            assert(ms[0] == messages@[0]@);
            assert(ms[n - 1] == messages@[n - 1]@);
            assert(t@ =~= simple_summary_spec(ms));
        }
        string_of(&t)
    }
}

} // verus!
