use paigu::services::rounds::{check_issues, Issue};
use paigu::settings::{ItemConfig, RoundSettings, VariantConfig};

fn variant(variant_id: &str, unit_price_cents: i64) -> VariantConfig {
    VariantConfig {
        variant_id: variant_id.to_string(),
        name: variant_id.to_string(),
        unit_price_cents,
        adjust_cents: 0,
        capacity: None,
        aliases: vec![],
    }
}

fn item(item_id: &str, kind: &str, aliases: Vec<&str>, variants: Vec<VariantConfig>) -> ItemConfig {
    ItemConfig {
        item_id: item_id.to_string(),
        name: item_id.to_string(),
        kind: kind.to_string(),
        class: None,
        aliases: aliases.into_iter().map(str::to_string).collect(),
        unit_price_cents: 100,
        max_quantity: None,
        variants,
    }
}

fn round(items: Vec<ItemConfig>) -> RoundSettings {
    RoundSettings {
        round_id: "t".to_string(),
        title: "t".to_string(),
        group_id: "g".to_string(),
        priority_users: vec![],
        priority_window: None,
        phases: vec![],
        items,
    }
}

fn codes(issues: &[Issue]) -> Vec<&str> {
    issues.iter().map(|i| i.code.as_str()).collect()
}

#[test]
fn check_flags_duplicates_aliases_and_category_mismatch() {
    let round = round(vec![
        item("a", "拼团", vec!["通用"], vec![variant("v1", 100)]),
        item("b", "单领", vec!["通用"], vec![]),
        item("c", "单领", vec![], vec![variant("v1", 0), variant("v1", 0)]),
    ]);
    let issues = check_issues(&round);
    let codes = codes(&issues);
    assert!(codes.contains(&"alias_conflict"));
    assert!(codes.contains(&"duplicate_variant_id"));
    assert!(codes.contains(&"category_variant_mismatch"));
    assert!(codes.contains(&"missing_variant_price"));
    assert!(!issues.iter().any(|i| i.level == "no_such_level"));
}

#[test]
fn check_flags_cross_item_name_and_alias_conflicts() {
    let mut round = round(vec![
        item("a", "拼团", vec!["甲"], vec![variant("v1", 100)]),
        item("b", "单领", vec!["乙"], vec![]),
    ]);
    round.items[1].aliases = vec!["a".to_string()];
    let issues = check_issues(&round);
    assert!(issues.iter().any(|i| i.code == "name_conflict"));
}

#[test]
fn check_ok_for_consistent_round() {
    let round = round(vec![
        item("a", "拼团", vec!["甲"], vec![variant("v1", 100)]),
        item("b", "单领", vec!["乙"], vec![]),
    ]);
    let issues = check_issues(&round);
    assert!(!issues.iter().any(|i| i.level == "error"));
}

#[test]
fn check_reports_duplicate_ids_with_count_and_owner_labels() {
    let round = round(vec![
        item("x", "单领", vec![], vec![]),
        item("x", "单领", vec![], vec![]),
        item("y", "单领", vec!["同名"], vec![]),
        item("z", "单领", vec!["同名"], vec![]),
    ]);
    let issues = check_issues(&round);
    let dup = issues.iter().find(|i| i.code == "duplicate_item_id").expect("dup");
    assert_eq!(dup.message, "item_id 重复：x（2 次）");
    assert_eq!(dup.where_, "item:x");
    let alias = issues.iter().find(|i| i.code == "alias_conflict").expect("alias");
    assert_eq!(alias.message, "别名跨商品冲突：同名（y, z）");
    assert_eq!(alias.where_, "aliases");
    assert!(!issues.iter().any(|i| i.code == "name_conflict"));
}

#[test]
fn check_reports_item_level_issues_in_order() {
    let mut it = item(" ", "bogus", vec![], vec![]);
    it.name = "  ".to_string();
    it.unit_price_cents = 0;
    let issues = check_issues(&round(vec![it]));
    assert_eq!(codes(&issues), vec!["empty_item_id", "empty_name", "missing_price"]);
    assert_eq!(issues[0].where_, "item:(empty)");
    assert_eq!(issues[2].level, "warn");
}
