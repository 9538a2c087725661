use xueli_memory::core_types::{MemoryItem, MemoryType};
use xueli_memory::person_fact_service::{infer_fact_category, normalize_text as fact_normalize, should_use_as_fact};
use xueli_memory::stores::important::{
    is_same_memory as same_important, normalize_text as important_normalize, plan_important_addition, ImportantAddition,
    StoredImportant,
};
use xueli_memory::stores::memory_item::{is_same_memory, memory_type_to_str, normalize_text, str_to_memory_type};

#[test]
fn memory_type_names_round_trip() {
    for mt in [
        MemoryType::Fact,
        MemoryType::Preference,
        MemoryType::Event,
        MemoryType::Opinion,
        MemoryType::Relationship,
    ] {
        assert_eq!(str_to_memory_type(memory_type_to_str(&mt)), mt);
    }
    assert_eq!(str_to_memory_type("unknown"), MemoryType::Fact);
}

#[test]
fn ordinary_normalize_keeps_letters_digits_and_ideographs() {
    assert_eq!(normalize_text("  Hello, 世界 42!  "), "hello世界42");
    assert_eq!(normalize_text("！？"), "");
}

#[test]
fn ordinary_same_memory_cases() {
    assert!(is_same_memory("用户喜欢喝咖啡", "用户喜欢喝咖啡！"));
    // 21 bytes inside 24: at least three quarters
    assert!(is_same_memory("用户喜欢喝咖啡", "用户喜欢喝咖啡吗"));
    // 6 bytes inside 21: too short a share
    assert!(!is_same_memory("咖啡", "用户喜欢喝咖啡"));
    assert!(!is_same_memory("", "x"));
    assert!(!is_same_memory("abc", "abcd"));
    assert_eq!(is_same_memory("abcd", "abcde"), is_same_memory("abcde", "abcd"));
    assert!(is_same_memory("abcd", "abcde"));
}

#[test]
fn important_normalize_keeps_spaces() {
    assert_eq!(important_normalize("  Hello, World  "), "hello world");
}

#[test]
fn important_same_memory_cases() {
    assert!(same_important("喜欢咖啡", "喜欢咖啡和茶"));
    assert!(!same_important("咖啡", "喜欢咖啡"));
    assert!(!same_important("喜欢咖啡", "我每天都在喜欢咖啡的日子里"));
    assert_eq!(same_important("abc", "abcdef"), same_important("abcdef", "abc"));
    assert!(same_important("abc", "abc"));
}

fn item(content: &str, mt: MemoryType) -> MemoryItem {
    MemoryItem {
        id: "m".into(),
        user_id: "u".into(),
        content: content.into(),
        memory_type: mt,
        importance: 1,
        created_at: 0,
        last_accessed_at: 0,
        access_count: 0,
    }
}

#[test]
fn person_fact_rules() {
    assert_eq!(fact_normalize("Hello, World!"), "helloworld");
    assert!(should_use_as_fact(&item("  喜欢  ", MemoryType::Preference)));
    assert!(!should_use_as_fact(&item(" ab ", MemoryType::Fact)));
    assert!(!should_use_as_fact(&item("去北京出差", MemoryType::Event)));
    assert_eq!(infer_fact_category(&item("x", MemoryType::Fact)), "profile");
    assert_eq!(infer_fact_category(&item("x", MemoryType::Opinion)), "boundary");
    assert_eq!(infer_fact_category(&item("x", MemoryType::Relationship)), "background");
    assert_eq!(infer_fact_category(&item("x", MemoryType::Preference)), "preference");
    assert_eq!(infer_fact_category(&item("x", MemoryType::Event)), "plan");
}

fn stored(content: &str, source: &str, priority: i32) -> StoredImportant {
    StoredImportant { content: content.to_string(), source: source.to_string(), priority }
}

#[test]
fn important_addition_of_blank_content_stores_nothing() {
    assert!(matches!(plan_important_addition(&[], "  \n ", "chat", 3), ImportantAddition::Nothing));
}

#[test]
fn important_addition_creates_with_priority_at_least_one() {
    let existing = vec![stored("用户住在北京", "chat", 2)];
    match plan_important_addition(&existing, "  用户喜欢猫  ", "manual", -4) {
        ImportantAddition::Create { content, source, priority } => {
            assert_eq!(content, "用户喜欢猫");
            assert_eq!(source, "manual");
            assert_eq!(priority, 1);
        }
        _ => panic!("expected a new memory"),
    }
}

#[test]
fn important_addition_merges_into_first_same_memory() {
    let existing = vec![
        stored("用户住在北京", "chat", 2),
        stored("用户喜欢猫", "unknown", 5),
        stored("用户喜欢猫", "chat", 9),
    ];
    match plan_important_addition(&existing, "用户喜欢猫和狗", "manual", 3) {
        ImportantAddition::Merge { index, content, source, priority } => {
            assert_eq!(index, 1);
            assert_eq!(content, "用户喜欢猫和狗");
            assert_eq!(source, "manual");
            assert_eq!(priority, 5);
        }
        _ => panic!("expected a merge"),
    }
    match plan_important_addition(&existing[2..], "用户喜欢猫", "", 20) {
        ImportantAddition::Merge { index, content, source, priority } => {
            assert_eq!(index, 0);
            assert_eq!(content, "用户喜欢猫");
            assert_eq!(source, "");
            assert_eq!(priority, 20);
        }
        _ => panic!("expected a merge"),
    }
}
