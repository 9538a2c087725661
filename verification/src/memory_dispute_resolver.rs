//! Turning a model's reflection on conflicting memories into a stable
//! decision: ignore it, act on it, or act on it with high confidence.
//!
//! Confidences are order keys: a larger key stands for a higher confidence
//! (callers map confidences in [0, 1] onto keys in an order-preserving way).
use vstd::prelude::*;
use crate::text::{chars_of, lowercase_of, string_of, to_lowercase, trim, trim_spec};

verus! {

/// Confidence thresholds of the dispute decision.
pub struct MemoryDisputeConfig {
    pub enabled: bool,
    pub high_confidence_threshold: u64,
    pub normal_confidence_threshold: u64,
}

/// A reflection on a possible conflict between memories.
pub struct ReflectionPayload {
    pub has_conflict: bool,
    pub action: String,
    pub confidence: u64,
    pub conflict_type: String,
    pub summary: String,
    pub reason: String,
    pub targets: Vec<String>,
    pub evidence: Vec<String>,
}

/// The decision on a reflection.
pub struct MemoryDisputeDecision {
    pub level: String,
    pub confidence: u64,
    pub action: String,
    pub conflict_type: String,
    pub summary: String,
    pub reason: String,
    pub targets: Vec<String>,
    pub evidence: Vec<String>,
}

/// The characters of each string.
pub open spec fn string_views(v: Seq<String>) -> Seq<Seq<char>> {
    v.map_values(|s: String| s@)
}

fn copy_strings(v: &Vec<String>) -> (r: Vec<String>)
    ensures
        string_views(r@) == string_views(v@),
{
    let mut r: Vec<String> = Vec::new();
    let mut i: usize = 0;
    while i < v.len()
        invariant
            i <= v@.len(),
            string_views(r@) == string_views(v@.take(i as int)),
        decreases v.len() - i,
    {
        let s = v[i].clone();
        proof {
            assert(v@.take(i + 1) =~= v@.take(i as int).push(v@[i as int]));
            assert(string_views(r@.push(s)) =~= string_views(r@).push(s@));
            assert(string_views(v@.take(i + 1)) =~= string_views(v@.take(i as int)).push(
                v@[i as int]@,
            ));
        }
        r.push(s);
        i = i + 1;
    }
    proof {
        assert(v@.take(v@.len() as int) =~= v@);
    }
    r
}

impl Default for MemoryDisputeDecision {
    /// Ignore, with no confidence, action or conflict.
    fn default() -> (r: Self)
        ensures
            r.level@ == "ignore"@,
            r.confidence == 0,
            r.action@ == Seq::<char>::empty(),
            r.conflict_type@ == "none"@,
            r.summary@ == Seq::<char>::empty(),
            r.reason@ == Seq::<char>::empty(),
            r.targets@.len() == 0,
            r.evidence@.len() == 0,
    {
        MemoryDisputeDecision {
            level: "ignore".to_string(),
            confidence: 0,
            action: String::new(),
            conflict_type: "none".to_string(),
            summary: String::new(),
            reason: String::new(),
            targets: Vec::new(),
            evidence: Vec::new(),
        }
    }
}

/// Decides on reflections with the thresholds of a configuration.
pub struct MemoryDisputeResolver {
    pub config: MemoryDisputeConfig,
}

/// The level of a conflict with confidence `c` under the thresholds.
pub open spec fn level_spec(config: MemoryDisputeConfig, c: u64) -> Seq<char> {
    if c >= config.high_confidence_threshold {
        "high_confidence"@
    } else if c >= config.normal_confidence_threshold {
        "normal"@
    } else {
        "ignore"@
    }
}

/// `r` is the decision on `reflection` under `config`: ignored, keeping
/// only its confidence, when it reports no conflict or no action; otherwise
/// a level by the thresholds, the action trimmed and lower-cased, the
/// conflict type trimmed (`none` when empty), summary and reason trimmed,
/// targets and evidence kept.
pub open spec fn decision_of(config: MemoryDisputeConfig, reflection: ReflectionPayload, r: MemoryDisputeDecision) -> bool {
    let action = lowercase_of(trim_spec(reflection.action@));
    if !reflection.has_conflict || action.len() == 0 {
        &&& r.level@ == "ignore"@
        &&& r.confidence == reflection.confidence
        &&& r.action@ == Seq::<char>::empty()
        &&& r.conflict_type@ == "none"@
        &&& r.summary@ == Seq::<char>::empty()
        &&& r.reason@ == Seq::<char>::empty()
        &&& r.targets@.len() == 0
        &&& r.evidence@.len() == 0
    } else {
        let ct = trim_spec(reflection.conflict_type@);
        &&& r.level@ == level_spec(config, reflection.confidence)
        &&& r.confidence == reflection.confidence
        &&& r.action@ == action
        &&& r.conflict_type@ == (if ct.len() == 0 {
            "none"@
        } else {
            ct
        })
        &&& r.summary@ == trim_spec(reflection.summary@)
        &&& r.reason@ == trim_spec(reflection.reason@)
        &&& string_views(r.targets@) == string_views(reflection.targets@)
        &&& string_views(r.evidence@) == string_views(reflection.evidence@)
    }
}

impl MemoryDisputeResolver {
    /// A resolver with `config`.
    pub fn new(config: MemoryDisputeConfig) -> (r: Self)
        ensures
            r.config == config,
    {
        MemoryDisputeResolver { config }
    }

    /// The decision on `reflection`: ignored, keeping only its confidence,
    /// when it reports no conflict or no action; otherwise a level by the
    /// thresholds, the action trimmed and lower-cased, the conflict type
    /// trimmed (`none` when empty), summary and reason trimmed, targets and
    /// evidence kept.
    pub fn resolve(&self, reflection: &ReflectionPayload) -> (r: MemoryDisputeDecision)
        ensures
            decision_of(self.config, *reflection, r),
    {
        let action = to_lowercase(&trim(&chars_of(reflection.action.as_str())));
        let confidence = reflection.confidence;
        if !reflection.has_conflict || action.len() == 0 {
            let mut d = MemoryDisputeDecision::default();
            d.confidence = confidence;
            return d;
        }
        let level = if confidence >= self.config.high_confidence_threshold {
            "high_confidence"
        } else if confidence >= self.config.normal_confidence_threshold {
            "normal"
        } else {
            "ignore"
        };
        let ct = trim(&chars_of(reflection.conflict_type.as_str()));
        let conflict_type = if ct.len() == 0 {
            "none".to_string()
        } else {
            string_of(&ct)
        };
        MemoryDisputeDecision {
            level: level.to_string(),
            confidence,
            action: string_of(&action),
            conflict_type,
            summary: string_of(&trim(&chars_of(reflection.summary.as_str()))),
            reason: string_of(&trim(&chars_of(reflection.reason.as_str()))),
            targets: copy_strings(&reflection.targets),
            evidence: copy_strings(&reflection.evidence),
        }
    }

    /// The decision on the reflection stored in a memory's metadata (the
    /// whole decision `resolve` gives on it); the default decision when
    /// there is none.
    pub fn resolve_from_memory_metadata(&self, reflection: Option<&ReflectionPayload>) -> (r: MemoryDisputeDecision)
        ensures
            match reflection {
                Some(p) => decision_of(self.config, *p, r),
                None => {
                    &&& r.level@ == "ignore"@
                    &&& r.confidence == 0
                    &&& r.action@ == Seq::<char>::empty()
                    &&& r.conflict_type@ == "none"@
                    &&& r.summary@ == Seq::<char>::empty()
                    &&& r.reason@ == Seq::<char>::empty()
                    &&& r.targets@.len() == 0
                    &&& r.evidence@.len() == 0
                },
            },
    {
        match reflection {
            Some(p) => self.resolve(p),
            None => MemoryDisputeDecision::default(),
        }
    }
}

} // verus!

verus! {

/// Rank of a level: ignore below normal below high confidence.
pub open spec fn level_rank(level: Seq<char>) -> int {
    if level == "high_confidence"@ {
        2
    } else if level == "normal"@ {
        1
    } else {
        0
    }
}

/// A more confident conflict never gets a lower level.
pub proof fn law_level_monotone(config: MemoryDisputeConfig, c1: u64, c2: u64)
    requires
        c1 <= c2,
    ensures
        level_rank(level_spec(config, c1)) <= level_rank(level_spec(config, c2)),
{
    reveal_strlit("high_confidence");
    reveal_strlit("normal");
    reveal_strlit("ignore");
    assert("high_confidence"@.len() == 15 && "normal"@.len() == 6 && "ignore"@.len() == 6);
    assert("ignore"@ != "normal"@) by {
        assert("ignore"@[0] != "normal"@[0]);
    }
}

} // verus!
