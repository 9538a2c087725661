use xueli_memory::manager::split_recalled_ids;

#[test]
fn recalled_ids_split_by_prefix() {
    let ids: Vec<String> = ["m1", "imp_2", "m3", "imp_4", "im", "IMP_5"].iter().map(|s| s.to_string()).collect();
    let (ordinary, important) = split_recalled_ids(&ids);
    assert_eq!(ordinary, vec!["m1", "m3", "im", "IMP_5"]);
    assert_eq!(important, vec!["imp_2", "imp_4"]);
    assert_eq!(ordinary.len() + important.len(), ids.len());
    let (o, i) = split_recalled_ids(&[]);
    assert!(o.is_empty() && i.is_empty());
}
