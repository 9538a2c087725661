//! Assembling the memory sections of a prompt: budgets, entries, scene
//! affinity and the trimming of sections to their budgets.
use vstd::prelude::*;
use crate::core_types::MemoryItem;
use crate::internal::access_policy::MemoryAccessContext;
use crate::ordering::{
    distinct_u64, lemma_filter_insert, lemma_filter_push, lemma_multiset_insert, shared_distinct_u64,
};
use crate::text::{
    byte_len, chars_eq, chars_of, concat_chars, contains, contains_spec, decimal, decimal_spec,
    eq_str, utf8_len,
    join_chars, join_with, keeps, lowercase_of, replace_all, replace_all_spec, retain_class,
    string_of, to_lowercase, trim, trim_spec, views, KeepClass,
};

verus! {

/// Character budget of each memory section of a prompt.
#[derive(Clone, Copy, Debug)]
pub struct PromptBudgets {
    pub user_important: usize,
    pub addressing: usize,
    pub shared: usize,
    pub session_restore: usize,
    pub precise_recall: usize,
    pub dynamic: usize,
}

impl Default for PromptBudgets {
    /// The standard budgets.
    fn default() -> (r: Self)
        ensures
            r.user_important == 360,
            r.addressing == 180,
            r.shared == 260,
            r.session_restore == 260,
            r.precise_recall == 260,
            r.dynamic == 420,
    {
        PromptBudgets {
            user_important: 360,
            addressing: 180,
            shared: 260,
            session_restore: 260,
            precise_recall: 260,
            dynamic: 420,
        }
    }
}

} // verus!

verus! {

/// Pairs of emotions that call for each other's memories.
pub open spec fn complementary_spec(a: Seq<char>, b: Seq<char>) -> bool {
    ||| (a == "伤心"@ && b == "委屈"@)
    ||| (a == "委屈"@ && b == "伤心"@)
    ||| (a == "害怕"@ && b == "困惑"@)
    ||| (a == "困惑"@ && b == "害怕"@)
    ||| (a == "开心"@ && b == "喜欢"@)
    ||| (a == "喜欢"@ && b == "开心"@)
    ||| (a == "生气"@ && b == "无语"@)
    ||| (a == "无语"@ && b == "生气"@)
}

/// Whether emotion `b` complements emotion `a`.
pub fn emotion_is_complementary(a: &str, b: &str) -> (r: bool)
    ensures
        r == complementary_spec(a@, b@),
{
    let ca = chars_of(a);
    let cb = chars_of(b);
    (eq_str(&ca, "伤心") && eq_str(&cb, "委屈")) || (eq_str(&ca, "委屈") && eq_str(&cb, "伤心"))
        || (eq_str(&ca, "害怕") && eq_str(&cb, "困惑")) || (eq_str(&ca, "困惑") && eq_str(&cb, "害怕"))
        || (eq_str(&ca, "开心") && eq_str(&cb, "喜欢")) || (eq_str(&ca, "喜欢") && eq_str(&cb, "开心"))
        || (eq_str(&ca, "生气") && eq_str(&cb, "无语")) || (eq_str(&ca, "无语") && eq_str(&cb, "生气"))
}

/// `text` lower-cased without white space, keeping only alphanumeric
/// characters and CJK ideographs, unless that leaves nothing.
pub open spec fn dynamic_normalized(text: Seq<char>) -> Seq<char> {
    let compact = lowercase_of(text).filter(|c: char| keeps(KeepClass::NonSpace, c));
    let kept = compact.filter(|c: char| keeps(KeepClass::AlnumOrCjk, c));
    if kept.len() == 0 {
        compact
    } else {
        kept
    }
}

/// `text` normalised for comparing dynamic memories.
pub fn normalize_dynamic_text(text: &str) -> (r: String)
    ensures
        r@ == dynamic_normalized(text@),
{
    let compact = retain_class(&to_lowercase(&chars_of(text)), KeepClass::NonSpace);
    let kept = retain_class(&compact, KeepClass::AlnumOrCjk);
    if kept.len() == 0 {
        string_of(&compact)
    } else {
        string_of(&kept)
    }
}

/// The budget of a section at an intensity: the section's base budget
/// (0 for other sections) times 0, 0.6, 1 or 1.4 for `off`, `light`,
/// `normal` (and unknown) and `high`, rounded down, at most `usize::MAX`.
pub open spec fn intensity_budget_spec(budgets: PromptBudgets, section: Seq<char>, intensity: Seq<char>) -> int {
    let b = scaled_budget(budgets, section, intensity);
    if b > usize::MAX {
        usize::MAX as int
    } else {
        b
    }
}

/// The base budget of `section` scaled by the factor of `intensity`.
pub open spec fn scaled_budget(budgets: PromptBudgets, section: Seq<char>, intensity: Seq<char>) -> int {
    let base: int = if section == "session_restore"@ {
        budgets.session_restore as int
    } else if section == "precise_recall"@ {
        budgets.precise_recall as int
    } else if section == "dynamic"@ {
        budgets.dynamic as int
    } else {
        0
    };
    if intensity == "off"@ {
        0
    } else if intensity == "light"@ {
        base * 6 / 10
    } else if intensity == "high"@ {
        base * 14 / 10
    } else {
        base
    }
}

/// The budget of `section` at `intensity`, computed exactly in integers.
pub fn budget_for_intensity(budgets: &PromptBudgets, section: &str, intensity: &str) -> (r: usize)
    ensures
        r as int == intensity_budget_spec(*budgets, section@, intensity@),
{
    let s = chars_of(section);
    let base: usize = if eq_str(&s, "session_restore") {
        budgets.session_restore
    } else if eq_str(&s, "precise_recall") {
        budgets.precise_recall
    } else if eq_str(&s, "dynamic") {
        budgets.dynamic
    } else {
        0
    };
    let i = chars_of(intensity);
    if eq_str(&i, "off") {
        0
    } else if eq_str(&i, "light") {
        ((base as u128) * 6 / 10) as usize
    } else if eq_str(&i, "high") {
        let b = (base as u128) * 14 / 10;
        if b > usize::MAX as u128 {
            usize::MAX
        } else {
            b as usize
        }
    } else {
        base
    }
}

/// A memory as an entry of a prompt section: its text, id, owner, order key
/// of importance, and where it was said (empty where unknown).
pub struct PromptEntry {
    pub content: String,
    pub memory_id: String,
    pub owner_user_id: String,
    pub score: u64,
    pub source_message_type: String,
    pub source_group_id: String,
}

impl PromptEntry {
    /// A copy with equal fields.
    pub fn duplicate(&self) -> (r: Self)
        ensures
            r == *self,
    {
        PromptEntry {
            content: self.content.clone(),
            memory_id: self.memory_id.clone(),
            owner_user_id: self.owner_user_id.clone(),
            score: self.score,
            source_message_type: self.source_message_type.clone(),
            source_group_id: self.source_group_id.clone(),
        }
    }
}

/// The text of a memory in `section`: shared memories of another known
/// user are labelled with their owner.
pub open spec fn entry_content_spec(memory: MemoryItem, section: Seq<char>, requester: Seq<char>) -> Seq<char> {
    if section == "shared"@ && memory.user_id@ != requester && memory.user_id@.len() > 0 {
        "[来源用户 "@ + memory.user_id@ + "] "@ + memory.content@
    } else {
        memory.content@
    }
}

/// `memory` as an entry of `section` of a prompt for `requester_user_id`.
pub fn memory_to_prompt_entry(memory: &MemoryItem, section: &str, requester_user_id: &str) -> (r: PromptEntry)
    ensures
        r.content@ == entry_content_spec(*memory, section@, requester_user_id@),
        r.memory_id@ == memory.id@,
        r.owner_user_id@ == memory.user_id@,
        r.score == memory.importance,
        r.source_message_type@ == Seq::<char>::empty(),
        r.source_group_id@ == Seq::<char>::empty(),
{
    let owner = chars_of(memory.user_id.as_str());
    let label_owner = !eq_str(&owner, requester_user_id) && owner.len() > 0;
    let content = if eq_str(&chars_of(section), "shared") && label_owner {
        let c = concat_chars(
            &concat_chars(&concat_chars(&chars_of("[来源用户 "), &owner), &chars_of("] ")),
            &chars_of(memory.content.as_str()),
        );
        string_of(&c)
    } else {
        memory.content.clone()
    };
    PromptEntry {
        content,
        memory_id: memory.id.clone(),
        owner_user_id: memory.user_id.clone(),
        score: memory.importance,
        source_message_type: String::new(),
        source_group_id: String::new(),
    }
}

/// How closely an entry belongs to the current scene: 4 same group and
/// owner, 3 same group, 2 same kind of chat and owner, 1 same kind of chat,
/// else 0.
pub open spec fn scene_bucket_spec(entry: PromptEntry, context: MemoryAccessContext) -> i32 {
    let owner = trim_spec(entry.owner_user_id@);
    let kind = lowercase_of(entry.source_message_type@);
    let group = trim_spec(entry.source_group_id@);
    let same_group = context.message_type@ == "group"@ && context.group_id@.len() > 0 && group
        == context.group_id@;
    let same_kind = kind.len() > 0 && kind == context.message_type@;
    let same_owner = context.requester_user_id@.len() > 0 && owner == context.requester_user_id@;
    if same_group && same_owner {
        4
    } else if same_group {
        3
    } else if same_kind && same_owner {
        2
    } else if same_kind {
        1
    } else {
        0
    }
}

/// How closely `entry` belongs to the scene of `context`.
pub fn dynamic_scene_bucket(entry: &PromptEntry, context: &MemoryAccessContext) -> (r: i32)
    ensures
        r == scene_bucket_spec(*entry, *context),
{
    let owner = trim(&chars_of(entry.owner_user_id.as_str()));
    let kind = to_lowercase(&chars_of(entry.source_message_type.as_str()));
    let group = trim(&chars_of(entry.source_group_id.as_str()));
    let ctx_type = chars_of(context.message_type.as_str());
    let ctx_group = chars_of(context.group_id.as_str());
    let requester = chars_of(context.requester_user_id.as_str());
    let same_group = eq_str(&ctx_type, "group") && ctx_group.len() > 0 && chars_eq(&group, &ctx_group);
    let same_kind = kind.len() > 0 && chars_eq(&kind, &ctx_type);
    let same_owner = requester.len() > 0 && chars_eq(&owner, &requester);
    if same_group && same_owner {
        4
    } else if same_group {
        3
    } else if same_kind && same_owner {
        2
    } else if same_kind {
        1
    } else {
        0
    }
}

/// The entries a section keeps after scanning the first `n` of them under a
/// budget of `budget` characters: entries with blank text are skipped; an
/// entry is kept while its trimmed text fits what is left, except that the
/// first kept entry is kept whatever its length; the scan stops at the first
/// entry that does not fit. Also the characters used and whether it stopped.
pub open spec fn trim_scan(es: Seq<PromptEntry>, budget: nat, n: nat) -> (Seq<PromptEntry>, nat, bool)
    decreases n,
{
    if n == 0 || n > es.len() {
        (Seq::empty(), 0, false)
    } else {
        let prev = trim_scan(es, budget, (n - 1) as nat);
        let c = trim_spec(es[n - 1].content@);
        if prev.2 || c.len() == 0 {
            prev
        } else if prev.0.len() > 0 && prev.1 + c.len() > budget {
            (prev.0, prev.1, true)
        } else {
            (prev.0.push(es[n - 1]), prev.1 + c.len(), false)
        }
    }
}

/// The entries of a section that fit its budget of characters.
pub fn trim_entries(entries: &[PromptEntry], budget: usize) -> (r: Vec<PromptEntry>)
    ensures
        r@ == trim_scan(entries@, budget as nat, entries@.len()).0,
{
    let mut kept: Vec<PromptEntry> = Vec::new();
    let mut used: usize = 0;
    let mut stopped = false;
    let mut i: usize = 0;
    while i < entries.len()
        invariant
            i <= entries@.len(),
            trim_scan(entries@, budget as nat, i as nat) == (kept@, used as nat, stopped),
            used <= budget || kept@.len() <= 1,
            kept@.len() == 0 ==> used == 0,
        decreases entries.len() - i,
    {
        if !stopped {
            let c = trim(&chars_of(entries[i].content.as_str()));
            if c.len() > 0 {
                let len = c.len();
                if kept.len() > 0 && (used as u128) + (len as u128) > budget as u128 {
                    stopped = true;
                } else {
                    kept.push(entries[i].duplicate());
                    used = used + len;
                }
            }
        }
        i = i + 1;
    }
    kept
}

} // verus!

verus! {

/// Title of the section of the requester's important memories.
pub const USER_IMPORTANT_TITLE: &'static str = "=== 当前用户重要记忆 ===";

/// Title of the section of how the requester wants to be addressed.
pub const ADDRESSING_TITLE: &'static str = "=== 当前场景称呼要求 ===";

/// Title of the section of shared rules and memories.
pub const SHARED_TITLE: &'static str = "=== 当前场景共享规则 / 共享重要记忆 ===";

/// Title of the section of restored sessions.
pub const SESSION_RESTORE_TITLE: &'static str = "=== 最近相关会话恢复 ===";

/// Title of the section of precisely recalled turns.
pub const PRECISE_RECALL_TITLE: &'static str = "=== 相关旧对话精准定位 ===";

/// Title of the section of related past information.
pub const DYNAMIC_TITLE: &'static str = "=== 相关过往信息（请用你自己的话自然融入回复，不要逐字引用） ===";

/// The memory sections of a prompt.
pub struct PromptSections {
    pub user_important: Vec<PromptEntry>,
    pub addressing: Vec<PromptEntry>,
    pub shared: Vec<PromptEntry>,
    pub session_restore: Vec<PromptEntry>,
    pub precise_recall: Vec<PromptEntry>,
    pub dynamic: Vec<PromptEntry>,
}

/// The entries of a section, numbered from 1.
pub open spec fn numbered_lines(es: Seq<PromptEntry>) -> Seq<Seq<char>> {
    Seq::new(es.len(), |i: int| decimal_spec((i + 1) as nat) + ". "@ + es[i].content@)
}

/// The lines of a section: its title, its numbered entries and a blank
/// line; nothing for a section without entries.
pub open spec fn section_lines(title: Seq<char>, es: Seq<PromptEntry>) -> Seq<Seq<char>> {
    if es.len() == 0 {
        Seq::empty()
    } else {
        seq![title] + numbered_lines(es) + seq![Seq::<char>::empty()]
    }
}

/// The lines of all sections, in their fixed order.
pub open spec fn prompt_lines(s: PromptSections) -> Seq<Seq<char>> {
    section_lines(USER_IMPORTANT_TITLE@, s.user_important@) + section_lines(
        ADDRESSING_TITLE@,
        s.addressing@,
    ) + section_lines(SHARED_TITLE@, s.shared@) + section_lines(
        SESSION_RESTORE_TITLE@,
        s.session_restore@,
    ) + section_lines(PRECISE_RECALL_TITLE@, s.precise_recall@) + section_lines(
        DYNAMIC_TITLE@,
        s.dynamic@,
    )
}

/// The memory part of a prompt: the lines of all sections joined by line
/// breaks, trimmed.
pub open spec fn prompt_text_spec(s: PromptSections) -> Seq<char> {
    trim_spec(join_with(prompt_lines(s), "\n"@))
}

fn append_section(lines: &mut Vec<Vec<char>>, title: &str, es: &[PromptEntry])
    ensures
        views(final(lines)@) == views(old(lines)@) + section_lines(title@, es@),
{
    if es.len() == 0 {
        proof {
            assert(views(lines@) =~= views(lines@) + Seq::<Seq<char>>::empty());
        }
        return;
    }
    let ghost start = views(lines@);
    lines.push(chars_of(title));
    let mut i: usize = 0;
    proof {
        assert(views(lines@) =~= start + seq![title@] + numbered_lines(es@.take(0)));
    }
    while i < es.len()
        invariant
            i <= es@.len(),
            views(lines@) == start + seq![title@] + numbered_lines(es@.take(i as int)),
        decreases es.len() - i,
    {
        let line = concat_chars(
            &concat_chars(&decimal(i + 1), &chars_of(". ")),
            &chars_of(es[i].content.as_str()),
        );
        let ghost before = views(lines@);
        lines.push(line);
        proof {
            assert(numbered_lines(es@.take(i + 1)) =~= numbered_lines(es@.take(i as int)).push(
                line@,
            ));
            assert(views(lines@) =~= before.push(line@));
        }
        i = i + 1;
    }
    let ghost before = views(lines@);
    lines.push(Vec::new());
    proof {
        assert(es@.take(es@.len() as int) =~= es@);
        assert(views(lines@) =~= before.push(Seq::<char>::empty()));
        assert(views(lines@) =~= start + section_lines(title@, es@));
    }
}

/// The memory part of a prompt built from its sections.
pub fn build_prompt_text(sections: &PromptSections) -> (r: String)
    ensures
        r@ == prompt_text_spec(*sections),
{
    let mut lines: Vec<Vec<char>> = Vec::new();
    append_section(&mut lines, USER_IMPORTANT_TITLE, &sections.user_important);
    append_section(&mut lines, ADDRESSING_TITLE, &sections.addressing);
    append_section(&mut lines, SHARED_TITLE, &sections.shared);
    append_section(&mut lines, SESSION_RESTORE_TITLE, &sections.session_restore);
    append_section(&mut lines, PRECISE_RECALL_TITLE, &sections.precise_recall);
    append_section(&mut lines, DYNAMIC_TITLE, &sections.dynamic);
    proof {
        assert(views(lines@) =~= prompt_lines(*sections));
    }
    string_of(&trim(&join_chars(&lines, "\n")))
}

/// The prompt text with `instruction` set before the precise-recall title:
/// unchanged when the title is absent or the instruction empty.
pub open spec fn with_recall_instruction_spec(text: Seq<char>, instruction: Seq<char>) -> Seq<char> {
    if !contains_spec(text, PRECISE_RECALL_TITLE@) || instruction.len() == 0 {
        text
    } else {
        replace_all_spec(text, PRECISE_RECALL_TITLE@, instruction + "\n\n"@ + PRECISE_RECALL_TITLE@)
    }
}

/// Sets `instruction` before the precise-recall section of `prompt_text`.
pub fn insert_recall_instruction(prompt_text: &str, instruction: &str) -> (r: String)
    ensures
        r@ == with_recall_instruction_spec(prompt_text@, instruction@),
{
    let text = chars_of(prompt_text);
    let marker = chars_of(PRECISE_RECALL_TITLE);
    let ins = chars_of(instruction);
    if !contains(&text, &marker) || ins.len() == 0 {
        return prompt_text.to_string();
    }
    proof {
        reveal_strlit("=== 相关旧对话精准定位 ===");
    }
    let rep = concat_chars(&concat_chars(&ins, &chars_of("\n\n")), &marker);
    string_of(&replace_all(&text, &marker, &rep))
}

} // verus!

verus! {

/// A trimmed section never uses more than its budget of characters, except
/// when its first entry alone is longer; and it keeps the entries in their
/// order, never more than there were.
pub proof fn law_trimmed_section_fits_budget(es: Seq<PromptEntry>, budget: nat, n: nat)
    ensures
        trim_scan(es, budget, n).1 <= budget || trim_scan(es, budget, n).0.len() <= 1,
        trim_scan(es, budget, n).0.len() <= n,
        trim_scan(es, budget, n).0.len() == 0 ==> trim_scan(es, budget, n).1 == 0,
    decreases n,
{
    if n > 0 && n <= es.len() {
        law_trimmed_section_fits_budget(es, budget, (n - 1) as nat);
    }
}

} // verus!

verus! {

// ---------------------------------------------------------------------------
// Similarity of dynamic memories by character bigrams.

/// The code of the bigram `a b`: distinct bigrams have distinct codes.
pub open spec fn bigram_code(a: char, b: char) -> u64 {
    ((a as u32) as u64 * 0x110000 + (b as u32) as u64) as u64
}

/// The characters of `s` other than white space.
pub open spec fn compact_spec(s: Seq<char>) -> Seq<char> {
    s.filter(|c: char| keeps(KeepClass::NonSpace, c))
}

/// The codes of the bigrams of `s` without its white space, in order.
pub open spec fn bigram_codes(s: Seq<char>) -> Seq<u64> {
    let c = compact_spec(s);
    if c.len() < 2 {
        Seq::empty()
    } else {
        Seq::new((c.len() - 1) as nat, |i: int| bigram_code(c[i], c[i + 1]))
    }
}

/// How similar two texts are, as a fraction: the bigrams they share over
/// the bigrams of the one with fewer, when they share any; else 1 for equal
/// texts; else, when one holds the other, the shorter byte length over the
/// longer; else 0. An empty text is similar to nothing.
pub open spec fn similarity_parts_spec(l: Seq<char>, r: Seq<char>) -> (nat, nat) {
    if l.len() == 0 || r.len() == 0 {
        (0, 1)
    } else {
        let sl = bigram_codes(l).to_set();
        let sr = bigram_codes(r).to_set();
        let shared = sl.intersect(sr).len();
        if sl.len() > 0 && sr.len() > 0 && shared > 0 {
            (shared, if sl.len() <= sr.len() {
                sl.len()
            } else {
                sr.len()
            })
        } else if l == r {
            (1, 1)
        } else if contains_spec(l, r) || contains_spec(r, l) {
            let a = utf8_len(l);
            let b = utf8_len(r);
            (if a <= b {
                a
            } else {
                b
            }, if a <= b {
                b
            } else {
                a
            })
        } else {
            (0, 1)
        }
    }
}

fn bigram_codes_exec(s: &[char]) -> (r: Vec<u64>)
    ensures
        r@ == bigram_codes(s@),
{
    let c = retain_class(s, KeepClass::NonSpace);
    let mut r: Vec<u64> = Vec::new();
    if c.len() < 2 {
        proof {
            assert(r@ =~= bigram_codes(s@));
        }
        return r;
    }
    let mut i: usize = 0;
    while i + 1 < c.len()
        invariant
            c@ == compact_spec(s@),
            c@.len() >= 2,
            i + 1 <= c@.len(),
            r@.len() == i,
            forall|j: int| 0 <= j < i ==> r@[j] == bigram_code(c@[j], c@[j + 1]),
        decreases c.len() - i,
    {
        let code: u64 = (c[i] as u32) as u64 * 0x110000 + (c[i + 1] as u32) as u64;
        r.push(code);
        i = i + 1;
    }
    proof {
        assert(r@ =~= bigram_codes(s@));
    }
    r
}

/// How similar two texts are, as a fraction with a positive denominator.
pub fn dynamic_similarity_parts(left: &str, right: &str) -> (r: (usize, usize))
    ensures
        r.0 as nat == similarity_parts_spec(left@, right@).0,
        r.1 as nat == similarity_parts_spec(left@, right@).1,
        r.1 > 0,
{
    let l = chars_of(left);
    let rr = chars_of(right);
    if l.len() == 0 || rr.len() == 0 {
        return (0, 1);
    }
    let bl = bigram_codes_exec(&l);
    let br = bigram_codes_exec(&rr);
    let dl = distinct_u64(&bl);
    let dr = distinct_u64(&br);
    let shared = shared_distinct_u64(&bl, &br);
    if dl.len() > 0 && dr.len() > 0 && shared > 0 {
        let m = if dl.len() <= dr.len() {
            dl.len()
        } else {
            dr.len()
        };
        return (shared, m);
    }
    if chars_eq(&l, &rr) {
        return (1, 1);
    }
    if contains(&l, &rr) || contains(&rr, &l) {
        let a = byte_len(left);
        let b = byte_len(right);
        proof {
            crate::text::lemma_utf8_len_positive(l@);
            crate::text::lemma_utf8_len_positive(rr@);
        }
        if a <= b {
            return (a, b);
        } else {
            return (b, a);
        }
    }
    (0, 1)
}

} // verus!

verus! {

// ---------------------------------------------------------------------------
// De-duplication and ordering of dynamic memories.

/// Two normalised texts count as the same memory: one holds the other, or
/// they are at least 72% similar.
pub open spec fn same_dynamic_text(c: Seq<char>, a: Seq<char>) -> bool {
    let p = similarity_parts_spec(c, a);
    a.len() > 0 && (c == a || contains_spec(c, a) || contains_spec(a, c) || 100 * p.0 >= 72 * p.1)
}

/// `content` repeats one of the `accepted` entries.
pub open spec fn dynamic_duplicate_spec(content: Seq<char>, accepted: Seq<PromptEntry>) -> bool {
    let c = dynamic_normalized(content);
    c.len() > 0 && exists|i: int|
        0 <= i < accepted.len() && same_dynamic_text(c, dynamic_normalized(#[trigger] accepted[i].content@))
}

/// The entries accepted from the first `n`: each entry that repeats none
/// accepted before is accepted, until `limit` are held (the first is always
/// accepted); also whether the limit was reached.
pub open spec fn accept_scan(es: Seq<PromptEntry>, limit: nat, n: nat) -> (Seq<PromptEntry>, bool)
    decreases n,
{
    if n == 0 || n > es.len() {
        (Seq::empty(), false)
    } else {
        let prev = accept_scan(es, limit, (n - 1) as nat);
        if prev.1 || dynamic_duplicate_spec(es[n - 1].content@, prev.0) {
            prev
        } else {
            let acc = prev.0.push(es[n - 1]);
            (acc, acc.len() >= limit)
        }
    }
}

/// Where an entry stands: its scene bucket first, then its score.
pub open spec fn scene_rank(e: PromptEntry, context: MemoryAccessContext) -> int {
    scene_bucket_spec(e, context) as int * 0x1_0000_0000_0000_0000 + e.score as int
}

/// Entries in order of non-increasing rank.
pub open spec fn rank_desc(s: Seq<PromptEntry>, context: MemoryAccessContext) -> bool {
    forall|i: int, j: int|
        0 <= i < j < s.len() ==> scene_rank(#[trigger] s[i], context) >= scene_rank(
            #[trigger] s[j],
            context,
        )
}

/// The predicate "has rank `k`".
pub open spec fn rank_is(k: int, context: MemoryAccessContext) -> spec_fn(PromptEntry) -> bool {
    |e: PromptEntry| scene_rank(e, context) == k
}

/// Whether `content` repeats one of the `accepted` entries.
pub fn is_duplicate_dynamic_entry(content: &str, accepted: &[PromptEntry]) -> (r: bool)
    ensures
        r == dynamic_duplicate_spec(content@, accepted@),
{
    let c = normalize_dynamic_text(content);
    let cc = chars_of(c.as_str());
    if cc.len() == 0 {
        return false;
    }
    let mut i: usize = 0;
    while i < accepted.len()
        invariant
            i <= accepted@.len(),
            c@ == dynamic_normalized(content@),
            cc@ == c@,
            cc@.len() > 0,
            forall|j: int|
                0 <= j < i ==> !same_dynamic_text(c@, dynamic_normalized(#[trigger] accepted@[j].content@)),
        decreases accepted.len() - i,
    {
        let a = normalize_dynamic_text(accepted[i].content.as_str());
        let ac = chars_of(a.as_str());
        if ac.len() > 0 {
            let same = if chars_eq(&cc, &ac) || contains(&cc, &ac) || contains(&ac, &cc) {
                true
            } else {
                let (num, den) = dynamic_similarity_parts(c.as_str(), a.as_str());
                (num as u128) * 100 >= (den as u128) * 72
            };
            if same {
                proof {
                    assert(same_dynamic_text(c@, dynamic_normalized(accepted@[i as int].content@)));
                }
                return true;
            }
        }
        i = i + 1;
    }
    false
}

fn ranks_before(a: &PromptEntry, b: &PromptEntry, context: &MemoryAccessContext) -> (r: bool)
    ensures
        r == (scene_rank(*a, *context) >= scene_rank(*b, *context)),
{
    let ba = dynamic_scene_bucket(a, context);
    let bb = dynamic_scene_bucket(b, context);
    ba > bb || (ba == bb && a.score >= b.score)
}

fn sorted_by_scene(s: &[PromptEntry], context: &MemoryAccessContext) -> (r: Vec<PromptEntry>)
    ensures
        r@.len() == s@.len(),
        rank_desc(r@, *context),
        r@.to_multiset() == s@.to_multiset(),
        forall|k: int| #[trigger] r@.filter(rank_is(k, *context)) == s@.filter(rank_is(k, *context)),
{
    broadcast use vstd::seq_lib::group_to_multiset_ensures;

    let ghost ctx = *context;
    let mut out: Vec<PromptEntry> = Vec::new();
    let mut i: usize = 0;
    proof {
        assert(s@.take(0) =~= Seq::<PromptEntry>::empty());
        assert forall|k: int| #[trigger] out@.filter(rank_is(k, ctx)) == s@.take(0).filter(
            rank_is(k, ctx),
        ) by {
            reveal(Seq::filter);
        }
    }
    while i < s.len()
        invariant
            i <= s@.len(),
            ctx == *context,
            out@.len() == i,
            rank_desc(out@, ctx),
            out@.to_multiset() == s@.take(i as int).to_multiset(),
            forall|k: int| #[trigger] out@.filter(rank_is(k, ctx)) == s@.take(i as int).filter(
                rank_is(k, ctx),
            ),
        decreases s.len() - i,
    {
        let x = s[i].duplicate();
        let mut p: usize = 0;
        while p < out.len() && ranks_before(&out[p], &x, context)
            invariant
                p <= out@.len(),
                ctx == *context,
                forall|t: int| 0 <= t < p ==> #[trigger] scene_rank(out@[t], ctx) >= scene_rank(x, ctx),
            decreases out.len() - p,
        {
            p = p + 1;
        }
        let ghost old_out = out@;
        proof {
            assert forall|t: int| p <= t < old_out.len() implies #[trigger] scene_rank(old_out[t], ctx)
                < scene_rank(x, ctx) by {
                assert(scene_rank(old_out[p as int], ctx) < scene_rank(x, ctx));
                if t > p {
                    assert(scene_rank(old_out[p as int], ctx) >= scene_rank(old_out[t], ctx));
                }
            }
            assert(s@.take(i + 1) =~= s@.take(i as int).push(s@[i as int]));
            assert forall|k: int| #[trigger] old_out.insert(p as int, x).filter(rank_is(k, ctx))
                == s@.take(i + 1).filter(rank_is(k, ctx)) by {
                let f = rank_is(k, ctx);
                assert(f(x) ==> forall|t: int| p <= t < old_out.len() ==> !f(#[trigger] old_out[t]));
                lemma_filter_insert(old_out, p as int, x, f);
                lemma_filter_push(s@.take(i as int), x, f);
            }
            lemma_multiset_insert(old_out, p as int, x);
            s@.take(i as int).to_multiset_ensures();
            assert(s@.take(i as int).push(x).to_multiset() =~= s@.take(i as int).to_multiset().insert(
                x,
            ));
        }
        out.insert(p, x);
        proof {
            assert forall|a: int, b: int| 0 <= a < b < out@.len() implies scene_rank(
                #[trigger] out@[a],
                ctx,
            ) >= scene_rank(#[trigger] out@[b], ctx) by {
                if b < p {
                    assert(out@[a] == old_out[a] && out@[b] == old_out[b]);
                } else if b == p {
                    assert(out@[a] == old_out[a]);
                } else if a < p {
                    assert(out@[a] == old_out[a] && out@[b] == old_out[b - 1]);
                } else if a == p {
                    assert(out@[b] == old_out[b - 1]);
                } else {
                    assert(out@[a] == old_out[a - 1] && out@[b] == old_out[b - 1]);
                }
            }
        }
        i = i + 1;
    }
    proof {
        assert(s@.take(s@.len() as int) =~= s@);
    }
    out
}

/// The dynamic entries to show: without de-duplication the first `limit`;
/// with it, the entries accepted by `accept_scan`, ordered by scene bucket
/// and then score, both descending, keeping the order of equal ranks.
pub fn dedupe_dynamic_entries(
    entries: &[PromptEntry],
    context: &MemoryAccessContext,
    limit: usize,
    dedup_enabled: bool,
) -> (r: Vec<PromptEntry>)
    ensures
        !dedup_enabled ==> r@ == entries@.take(if limit < entries@.len() {
            limit as int
        } else {
            entries@.len() as int
        }),
        dedup_enabled ==> {
            let acc = accept_scan(entries@, limit as nat, entries@.len()).0;
            &&& r@.len() == acc.len()
            &&& rank_desc(r@, *context)
            &&& r@.to_multiset() == acc.to_multiset()
            &&& forall|k: int| #[trigger] r@.filter(rank_is(k, *context)) == acc.filter(
                rank_is(k, *context),
            )
        },
{
    if !dedup_enabled {
        let n = if limit < entries.len() {
            limit
        } else {
            entries.len()
        };
        let mut r: Vec<PromptEntry> = Vec::new();
        let mut i: usize = 0;
        while i < n
            invariant
                i <= n,
                n <= entries@.len(),
                r@ == entries@.take(i as int),
            decreases n - i,
        {
            proof {
                assert(entries@.take(i + 1) =~= entries@.take(i as int).push(entries@[i as int]));
            }
            r.push(entries[i].duplicate());
            i = i + 1;
        }
        return r;
    }
    let mut accepted: Vec<PromptEntry> = Vec::new();
    let mut done = false;
    let mut i: usize = 0;
    while i < entries.len()
        invariant
            i <= entries@.len(),
            accept_scan(entries@, limit as nat, i as nat) == (accepted@, done),
        decreases entries.len() - i,
    {
        if !done && !is_duplicate_dynamic_entry(entries[i].content.as_str(), &accepted) {
            accepted.push(entries[i].duplicate());
            done = accepted.len() >= limit;
        }
        i = i + 1;
    }
    sorted_by_scene(&accepted, context)
}

} // verus!

verus! {

/// The budget of the session-restore, precise-recall and dynamic sections at
/// an intensity is that section's own base budget, scaled: all of it at
/// `normal` (and at an unknown intensity), 6/10 of it at `light` (rounded
/// down), 14/10 of it at `high` (rounded down, at most `usize::MAX`), none
/// at `off`; every other section has no budget by intensity.
pub proof fn law_intensity_budget_scales_the_section_base(
    budgets: PromptBudgets,
    section: Seq<char>,
    intensity: Seq<char>,
)
    ensures
        ({
            let base: int = if section == "session_restore"@ {
                budgets.session_restore as int
            } else if section == "precise_recall"@ {
                budgets.precise_recall as int
            } else if section == "dynamic"@ {
                budgets.dynamic as int
            } else {
                0
            };
            let b = intensity_budget_spec(budgets, section, intensity);
            &&& intensity == "normal"@ ==> b == base
            &&& intensity == "light"@ ==> b == base * 6 / 10
            &&& intensity == "high"@ ==> b == if base * 14 / 10 > usize::MAX {
                usize::MAX as int
            } else {
                base * 14 / 10
            }
            &&& intensity == "off"@ ==> b == 0
            &&& intensity != "normal"@ && intensity != "light"@ && intensity != "high"@
                && intensity != "off"@ ==> b == base
        }),
        intensity_budget_spec(budgets, "session_restore"@, "normal"@) == budgets.session_restore,
        intensity_budget_spec(budgets, "precise_recall"@, "normal"@) == budgets.precise_recall,
        intensity_budget_spec(budgets, "dynamic"@, "normal"@) == budgets.dynamic,
{
    reveal_strlit("normal");
    reveal_strlit("light");
    reveal_strlit("high");
    reveal_strlit("off");
    reveal_strlit("session_restore");
    reveal_strlit("precise_recall");
    reveal_strlit("dynamic");
    assert("normal"@ != "off"@ && "normal"@ != "light"@ && "normal"@ != "high"@) by {
        assert("normal"@.len() != "off"@.len());
        assert("normal"@.len() != "high"@.len());
        assert("normal"@[0] != "light"@[0]);
    }
    assert("light"@ != "off"@ && "high"@ != "off"@ && "light"@ != "high"@) by {
        assert("light"@.len() != "off"@.len());
        assert("high"@.len() != "off"@.len());
        assert("light"@.len() != "high"@.len());
    }
    assert("precise_recall"@ != "session_restore"@) by {
        assert("precise_recall"@.len() != "session_restore"@.len());
    }
    assert("dynamic"@ != "session_restore"@ && "dynamic"@ != "precise_recall"@) by {
        assert("dynamic"@.len() != "session_restore"@.len());
        assert("dynamic"@.len() != "precise_recall"@.len());
    }
    assert(budgets.session_restore <= usize::MAX);
}

} // verus!
