//! Compact summaries of a session built from what the user said.
use vstd::prelude::*;
use crate::outside::{regex_replace_all, regex_replace_all_of};
use crate::text::{
    byte_len, chars_of, concat_chars, contains_piece, join_chars, join_with, string_of, trim,
    trim_end, trim_end_spec, trim_spec, utf8_len, views,
};

verus! {

/// What a summary reads of a stored message.
pub struct SummaryRecord {
    pub text: String,
    pub is_bot: bool,
}

/// Limits of a summary: how many points, how long each point, how long the whole.
pub struct ChatSummaryService {
    pub max_points: usize,
    pub max_point_chars: usize,
    pub max_summary_chars: usize,
}

/// Pattern of a run of white space.
pub const WHITESPACE_RUN: &'static str = r"\s+";

/// `text` cut to fit `max_len` UTF-8 bytes: unchanged when it fits,
/// otherwise its first `max(max_len - 3, 1)` characters, right-trimmed,
/// followed by `...`.
pub open spec fn truncated_spec(text: Seq<char>, max_len: nat) -> Seq<char> {
    if utf8_len(text) <= max_len {
        text
    } else {
        let n: nat = if max_len > 4 {
            (max_len - 3) as nat
        } else {
            1
        };
        trim_end_spec(if text.len() <= n {
            text
        } else {
            text.take(n as int)
        }) + "..."@
    }
}

/// A message as a summary point: white-space runs made single spaces,
/// trimmed, then cut to `max_chars` bytes; empty when nothing is left.
pub open spec fn fragment_spec(text: Seq<char>, max_chars: nat) -> Seq<char> {
    match regex_replace_all_of(WHITESPACE_RUN@, trim_spec(text), " "@) {
        Some(c) => {
            let t = trim_spec(c);
            if t.len() == 0 {
                Seq::empty()
            } else {
                truncated_spec(t, max_chars)
            }
        },
        None => Seq::empty(),
    }
}

/// At least one.
pub open spec fn at_least_one(n: usize) -> nat {
    if n > 1 {
        n as nat
    } else {
        1
    }
}

impl ChatSummaryService {
    /// Points collected from the newest `n` messages, newest first: each
    /// user message adds its fragment unless it is empty or already there,
    /// until `max(max_points, 1)` points are held.
    pub open spec fn points_from_end(&self, records: Seq<SummaryRecord>, n: nat) -> Seq<Seq<char>>
        decreases n,
    {
        if n == 0 || n > records.len() {
            Seq::empty()
        } else {
            let p = self.points_from_end(records, (n - 1) as nat);
            let r = records[records.len() - n];
            if p.len() >= at_least_one(self.max_points) || r.is_bot {
                p
            } else {
                let t = fragment_spec(r.text@, self.max_point_chars as nat);
                if t.len() == 0 || p.contains(t) {
                    p
                } else {
                    p.push(t)
                }
            }
        }
    }

    /// The summary of `records`: the points in the order said, joined with
    /// `；` and cut to `max_summary_chars` bytes; when the user said nothing,
    /// the last message cut the same way if the assistant sent it, else empty.
    pub open spec fn summary_spec(&self, records: Seq<SummaryRecord>) -> Seq<char> {
        if records.len() == 0 {
            Seq::empty()
        } else {
            let pts = self.points_from_end(records, records.len()).reverse();
            if pts.len() == 0 {
                if records.last().is_bot {
                    truncated_spec(records.last().text@, self.max_summary_chars as nat)
                } else {
                    Seq::empty()
                }
            } else {
                truncated_spec(join_with(pts, "；"@), self.max_summary_chars as nat)
            }
        }
    }

    /// Three points of at most 72 bytes, a summary of at most 220 bytes.
    pub fn new() -> (r: Self)
        ensures
            r.max_points == 3,
            r.max_point_chars == 72,
            r.max_summary_chars == 220,
    {
        ChatSummaryService { max_points: 3, max_point_chars: 72, max_summary_chars: 220 }
    }

    /// The same limits with at most `max` points.
    pub fn with_max_points(self, max: usize) -> (r: Self)
        ensures
            r.max_points == max,
            r.max_point_chars == self.max_point_chars,
            r.max_summary_chars == self.max_summary_chars,
    {
        ChatSummaryService { max_points: max, ..self }
    }

    /// The same limits with points of at most `max` bytes.
    pub fn with_max_point_chars(self, max: usize) -> (r: Self)
        ensures
            r.max_points == self.max_points,
            r.max_point_chars == max,
            r.max_summary_chars == self.max_summary_chars,
    {
        ChatSummaryService { max_point_chars: max, ..self }
    }

    /// The same limits with a summary of at most `max` bytes.
    pub fn with_max_summary_chars(self, max: usize) -> (r: Self)
        ensures
            r.max_points == self.max_points,
            r.max_point_chars == self.max_point_chars,
            r.max_summary_chars == max,
    {
        ChatSummaryService { max_summary_chars: max, ..self }
    }

    /// `text` cut to fit `max_len` UTF-8 bytes, ending in `...` when cut.
    pub fn truncate_text(&self, text: &str, max_len: usize) -> (r: String)
        ensures
            r@ == truncated_spec(text@, max_len as nat),
    {
        if byte_len(text) <= max_len {
            return text.to_string();
        }
        let n: usize = if max_len > 4 {
            max_len - 3
        } else {
            1
        };
        let c = chars_of(text);
        let head = if c.len() <= n {
            c
        } else {
            crate::text::sub_chars(&c, 0, n)
        };
        proof {
            if c@.len() > n {
                assert(head@ =~= text@.take(n as int));
            }
        }
        let out = concat_chars(&trim_end(&head), &chars_of("..."));
        string_of(&out)
    }

    /// `text` as a summary point.
    pub fn normalize_fragment(&self, text: &str) -> (r: String)
        ensures
            r@ == fragment_spec(text@, self.max_point_chars as nat),
    {
        match regex_replace_all(WHITESPACE_RUN, &trim(&chars_of(text)), " ") {
            Some(c) => {
                let t = trim(&c);
                if t.len() == 0 {
                    String::new()
                } else {
                    let s = string_of(&t);
                    self.truncate_text(s.as_str(), self.max_point_chars)
                }
            },
            None => String::new(),
        }
    }

    /// The summary of `records`.
    pub fn build_summary(&self, records: &[SummaryRecord]) -> (r: String)
        ensures
            r@ == self.summary_spec(records@),
    {
        if records.len() == 0 {
            return String::new();
        }
        let limit: usize = if self.max_points > 1 {
            self.max_points
        } else {
            1
        };
        let mut points: Vec<Vec<char>> = Vec::new();
        let mut n: usize = 0;
        while n < records.len()
            invariant
                n <= records@.len(),
                limit as nat == at_least_one(self.max_points),
                views(points@) == self.points_from_end(records@, n as nat),
            decreases records.len() - n,
        {
            let r = &records[records.len() - 1 - n];
            if points.len() < limit && !r.is_bot {
                let t = chars_of(self.normalize_fragment(r.text.as_str()).as_str());
                if t.len() > 0 && !contains_piece(&points, &t) {
                    let ghost before = views(points@);
                    points.push(t);
                    proof {
                        assert(views(points@) =~= before.push(t@));
                    }
                }
            }
            n = n + 1;
        }
        let ghost pts = views(points@);
        let mut ordered: Vec<Vec<char>> = Vec::new();
        let mut k: usize = points.len();
        while k > 0
            invariant
                k <= points@.len(),
                pts == views(points@),
                views(ordered@) == pts.reverse().take(points@.len() - k),
            decreases k,
        {
            k = k - 1;
            let ghost before = views(ordered@);
            ordered.push(sub_vec(&points[k]));
            proof {
                assert(views(ordered@) =~= before.push(pts[k as int]));
                assert(pts.reverse().take(points@.len() - k) =~= pts.reverse().take(
                    points@.len() - k - 1,
                ).push(pts[k as int]));
            }
        }
        proof {
            assert(pts.reverse().take(points@.len() as int) =~= pts.reverse());
        }
        if ordered.len() == 0 {
            let last = &records[records.len() - 1];
            if last.is_bot {
                return self.truncate_text(last.text.as_str(), self.max_summary_chars);
            }
            return String::new();
        }
        let joined = string_of(&join_chars(&ordered, "；"));
        self.truncate_text(joined.as_str(), self.max_summary_chars)
    }

    /// The cached summary when it holds more than white space, else a fresh one.
    pub fn get_summary(&self, records: &[SummaryRecord], cached_summary: Option<&str>) -> (r: String)
        ensures
            r@ == (match cached_summary {
                Some(s) => if trim_spec(s@).len() > 0 {
                    trim_spec(s@)
                } else {
                    self.summary_spec(records@)
                },
                None => self.summary_spec(records@),
            }),
    {
        match cached_summary {
            Some(s) => {
                let t = trim(&chars_of(s));
                if t.len() > 0 {
                    return string_of(&t);
                }
            },
            None => {},
        }
        self.build_summary(records)
    }
}

fn sub_vec(v: &Vec<char>) -> (r: Vec<char>)
    ensures
        r@ == v@,
{
    crate::text::sub_chars(v, 0, v.len())
}

impl Default for ChatSummaryService {
    /// The same limits as `new`.
    fn default() -> (r: Self)
        ensures
            r.max_points == 3,
            r.max_point_chars == 72,
            r.max_summary_chars == 220,
    {
        Self::new()
    }
}

} // verus!
