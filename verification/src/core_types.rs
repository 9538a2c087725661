//! Memory records shared by the stores, the policy and the merger.
use vstd::prelude::*;

verus! {

/// Kind of a stored memory.
#[derive(Clone, Copy, Debug, PartialEq, Eq, Structural)]
pub enum MemoryType {
    Fact,
    Preference,
    Event,
    Opinion,
    Relationship,
}

/// Where a conversation takes place.
pub enum ChatScope {
    Private,
    Group(String),
}

/// A stored memory. `importance` is an order key: a larger key stands for a
/// more important memory (callers map their importance scores onto keys in
/// an order-preserving way); the timestamps are Unix milliseconds.
pub struct MemoryItem {
    pub id: String,
    pub user_id: String,
    pub content: String,
    pub memory_type: MemoryType,
    pub importance: u64,
    pub created_at: i64,
    pub last_accessed_at: i64,
    pub access_count: u64,
}

impl MemoryItem {
    /// A copy with equal fields.
    pub fn duplicate(&self) -> (r: Self)
        ensures
            r == *self,
    {
        MemoryItem {
            id: self.id.clone(),
            user_id: self.user_id.clone(),
            content: self.content.clone(),
            memory_type: self.memory_type,
            importance: self.importance,
            created_at: self.created_at,
            last_accessed_at: self.last_accessed_at,
            access_count: self.access_count,
        }
    }
}

/// Memories to add and update, and ids of memories to remove.
pub struct MemoryPatch {
    pub add: Vec<MemoryItem>,
    pub update: Vec<MemoryItem>,
    pub remove: Vec<String>,
}

} // verus!

verus! {

/// The name under which a memory type is stored.
pub open spec fn memory_type_spec(t: MemoryType) -> Seq<char> {
    match t {
        MemoryType::Fact => "fact"@,
        MemoryType::Preference => "preference"@,
        MemoryType::Event => "event"@,
        MemoryType::Opinion => "opinion"@,
        MemoryType::Relationship => "relationship"@,
    }
}

} // verus!
