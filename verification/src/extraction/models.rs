//! Records produced by memory extraction.
use vstd::prelude::*;

verus! {

/// A memory read from the extraction model's reply.
pub struct ExtractedMemory {
    pub content: String,
    pub source_turn_start: u32,
    pub source_turn_end: u32,
    pub is_important: bool,
    pub importance: u32,
    pub emotional_tone: String,
    pub memory_category: String,
    pub fact_kind: String,
}

/// Where a parsed memory's importance comes from.
pub enum ImportanceSource {
    /// Given by a tag: `[IMPORTANT]` or `[NORMAL:n]`.
    Tagged { is_important: bool, level: u32 },
    /// A pipe line without an importance field (the score 0.5).
    Unspecified,
    /// A pipe line's importance field (trimmed): a score in [0, 1] written
    /// as text, turned into a level 1..=5 by floating-point arithmetic.
    Score(String),
}

/// A memory line of the extraction reply, before its importance score is resolved.
pub struct ParsedMemoryLine {
    pub content: String,
    pub source_turn_start: u32,
    pub source_turn_end: u32,
    pub importance: ImportanceSource,
    pub emotional_tone: String,
    pub memory_category: String,
    pub fact_kind: String,
}

/// Abstract value of a parsed line.
pub struct LineSpec {
    pub content: Seq<char>,
    pub source_turn_start: u32,
    pub source_turn_end: u32,
    pub importance: ImportanceSpec,
    pub emotional_tone: Seq<char>,
    pub memory_category: Seq<char>,
    pub fact_kind: Seq<char>,
}

pub enum ImportanceSpec {
    Tagged { is_important: bool, level: u32 },
    Unspecified,
    Score(Seq<char>),
}

impl ImportanceSource {
    pub open spec fn view(&self) -> ImportanceSpec {
        match self {
            ImportanceSource::Tagged { is_important, level } => ImportanceSpec::Tagged {
                is_important: *is_important,
                level: *level,
            },
            ImportanceSource::Unspecified => ImportanceSpec::Unspecified,
            ImportanceSource::Score(s) => ImportanceSpec::Score(s@),
        }
    }
}

impl ParsedMemoryLine {
    pub open spec fn view(&self) -> LineSpec {
        LineSpec {
            content: self.content@,
            source_turn_start: self.source_turn_start,
            source_turn_end: self.source_turn_end,
            importance: self.importance.view(),
            emotional_tone: self.emotional_tone@,
            memory_category: self.memory_category@,
            fact_kind: self.fact_kind@,
        }
    }
}

/// Level a line ends with; `score_level` is the level of its score text.
pub open spec fn resolved_level(imp: ImportanceSpec, score_level: u32) -> u32 {
    match imp {
        ImportanceSpec::Tagged { level, .. } => level,
        ImportanceSpec::Unspecified => 3,
        ImportanceSpec::Score(_) => score_level,
    }
}

/// Whether a line ends important; `score_level` is the level of its score text.
pub open spec fn resolved_important(imp: ImportanceSpec, score_level: u32) -> bool {
    match imp {
        ImportanceSpec::Tagged { is_important, .. } => is_important,
        _ => resolved_level(imp, score_level) >= 5,
    }
}

impl ParsedMemoryLine {
    /// The finished memory, given the level that the line's score text maps to
    /// (used only when the importance is `Score`). A pipe line without a score
    /// counts 0.5, which is level 3; a scored line is important at level 5.
    pub fn into_memory(self, score_level: u32) -> (m: ExtractedMemory)
        ensures
            m.content@ == self.content@,
            m.source_turn_start == self.source_turn_start,
            m.source_turn_end == self.source_turn_end,
            m.importance == resolved_level(self.importance.view(), score_level),
            m.is_important == resolved_important(self.importance.view(), score_level),
            m.emotional_tone@ == self.emotional_tone@,
            m.memory_category@ == self.memory_category@,
            m.fact_kind@ == self.fact_kind@,
    {
        let (is_important, importance) = match &self.importance {
            ImportanceSource::Tagged { is_important, level } => (*is_important, *level),
            ImportanceSource::Unspecified => (false, 3),
            ImportanceSource::Score(_) => (score_level >= 5, score_level),
        };
        ExtractedMemory {
            content: self.content,
            source_turn_start: self.source_turn_start,
            source_turn_end: self.source_turn_end,
            is_important,
            importance,
            emotional_tone: self.emotional_tone,
            memory_category: self.memory_category,
            fact_kind: self.fact_kind,
        }
    }
}

} // verus!
