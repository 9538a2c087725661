//! The wording of fuzzy recall: recalled context wrapped in an instruction
//! to bring it up loosely, as a memory rather than a record.
use vstd::prelude::*;
use crate::text::{chars_of, concat_chars, string_of, trim, trim_spec};

verus! {

/// The instruction put before recalled context when recall is fuzzy.
pub const FUZZY_RECALL_INSTRUCTION: &'static str = "【回忆提示】当你在回复中引用记忆内容时，请使用自然、模糊的口吻，让回忆听起来像是你脑海中自然浮现的片段，而非精确检索出的内容。不要逐字复述细节，适当加入你自己的想法和感受，用你自己的方式表达不确定感，不需要使用任何预设的开场白。";

/// Whether recalled context is worded fuzzily.
pub struct RecallRenderer {
    pub enabled: bool,
}

impl Default for RecallRenderer {
    /// Fuzzy wording off.
    fn default() -> (r: Self)
        ensures
            !r.enabled,
    {
        RecallRenderer { enabled: false }
    }
}

/// `raw` as fuzzy recall words it: after the instruction and a blank line.
pub open spec fn wrapped_spec(raw: Seq<char>) -> Seq<char> {
    FUZZY_RECALL_INSTRUCTION@ + "\n\n"@ + raw
}

impl RecallRenderer {
    /// The instruction for fuzzy recall; empty when fuzzy wording is off.
    pub fn render_fuzzy_instruction(&self) -> (r: String)
        ensures
            r@ == (if self.enabled { FUZZY_RECALL_INSTRUCTION@ } else { Seq::<char>::empty() }),
    {
        if !self.enabled {
            return String::new();
        }
        FUZZY_RECALL_INSTRUCTION.to_string()
    }

    /// `raw_text` after the instruction and a blank line; unchanged when
    /// fuzzy wording is off.
    pub fn wrap_recall_context(&self, raw_text: &str) -> (r: String)
        ensures
            r@ == (if self.enabled { wrapped_spec(raw_text@) } else { raw_text@ }),
    {
        if !self.enabled {
            return raw_text.to_string();
        }
        let head = concat_chars(&chars_of(FUZZY_RECALL_INSTRUCTION), &chars_of("\n\n"));
        string_of(&concat_chars(&head, &chars_of(raw_text)))
    }

    /// Recalled context as the prompt shows it: trimmed, wrapped when fuzzy
    /// wording is on; empty when there is nothing to recall.
    pub fn apply(&self, recall_context: &str) -> (r: String)
        ensures
            r@ == (if trim_spec(recall_context@).len() == 0 {
                Seq::<char>::empty()
            } else if self.enabled {
                wrapped_spec(trim_spec(recall_context@))
            } else {
                trim_spec(recall_context@)
            }),
    {
        let t = trim(&chars_of(recall_context));
        if t.len() == 0 {
            return String::new();
        }
        let text = string_of(&t);
        if !self.enabled {
            return text;
        }
        self.wrap_recall_context(text.as_str())
    }
}

} // verus!
