use paigu::domain::{Item, ItemId, ItemKind, ItemVariant, MoneyCents, RoundContext, RoundId};
use paigu::parser::alias_match::{
    first_match, is_bare_variant_name, is_splittable, resolve_item, resolve_multiple_items,
};
use paigu::parser::parsed_event::ParsedClaimItem;

fn variant(id: &str, name: &str) -> ItemVariant {
    ItemVariant {
        variant_id: id.to_string(),
        name: name.to_string(),
        unit_price: MoneyCents(0),
        capacity: None,
        aliases: vec![],
    }
}

fn item(id: &str, name: &str, kind: ItemKind, aliases: &[&str], variants: Vec<ItemVariant>) -> Item {
    Item {
        item_id: ItemId(id.to_string()),
        round_id: RoundId("r1".to_string()),
        name: name.to_string(),
        kind,
        unit_price: MoneyCents(0),
        box_size: None,
        max_quantity: None,
        is_blind: false,
        is_proxy_card: false,
        aliases: aliases.iter().map(|a| a.to_string()).collect(),
        sort_order: 0,
        variants,
    }
}

fn ctx(items: Vec<Item>) -> Vec<RoundContext> {
    vec![RoundContext {
        round_id: RoundId("r1".to_string()),
        title: "t".to_string(),
        items,
    }]
}

fn claim(name: &str) -> ParsedClaimItem {
    ParsedClaimItem {
        name: name.to_string(),
        category_hint: None,
        quantity: 1,
        claim_type: Some("Split".to_string()),
        is_proxy_card: None,
        slot_policy: None,
        notes: None,
        resolved_item_id: None,
        resolved_variant_id: None,
        resolved_round_id: None,
    }
}

fn catalog() -> Vec<RoundContext> {
    ctx(vec![
        item(
            "pass_sp",
            "通行认证SP-月行水上",
            ItemKind::Split,
            &["通行证"],
            vec![variant("v_jcl", "结城理"), variant("v_hlw", "虎狼丸")],
        ),
        item(
            "hr_resume",
            "人事部简历SP-月行水上",
            ItemKind::Split,
            &["人事部简历"],
            vec![variant("v_jcl", "结城理")],
        ),
        item(
            "fashion",
            "风尚速递SP-月行水上",
            ItemKind::Split,
            &["风尚速递"],
            vec![variant("v_jcl", "结城理")],
        ),
    ])
}

#[test]
fn first_match_picks_catalog_first_splittable_item() {
    let rounds = catalog();
    let m = first_match("结城理", &rounds).expect("match");
    assert_eq!(m.1 .0, "pass_sp", "应命中目录第一个（通行证），而非人事部简历");
    assert_eq!(m.2.as_deref(), Some("v_jcl"));
    assert!(is_bare_variant_name("结城理", &rounds));
}

#[test]
fn first_match_ignores_non_splittable_candidates() {
    let rounds = ctx(vec![
        item("single_card", "单领卡", ItemKind::Single, &[], vec![variant("v_jcl", "结城理")]),
        item(
            "pass_sp",
            "通行认证SP-月行水上",
            ItemKind::Split,
            &["通行证"],
            vec![variant("v_jcl", "结城理")],
        ),
    ]);
    let m = first_match("结城理", &rounds).expect("match");
    assert_eq!(m.1 .0, "pass_sp", "单领商品不应成为 first-match 候选");
}

#[test]
fn first_match_resolves_category_alias_without_variant() {
    let rounds = catalog();
    assert!(!is_bare_variant_name("通行证", &rounds));
    let m = first_match("通行证", &rounds).expect("match");
    assert_eq!(m.1 .0, "pass_sp");
    assert_eq!(m.2, None);
}

#[test]
fn resolve_item_uses_first_match_for_bare_variant() {
    let rounds = catalog();
    let r = resolve_item(&claim("结城理"), &rounds);
    assert!(r.resolved);
    assert_eq!(r.item_id.unwrap().0, "pass_sp");
    assert_eq!(r.variant_id.as_deref(), Some("v_jcl"));
}

#[test]
fn first_match_none_for_unknown_name() {
    let rounds = catalog();
    assert!(first_match("悠人", &rounds).is_none());
    assert!(!is_bare_variant_name("悠人", &rounds));
}

#[test]
fn first_match_trims_and_rejects_blank_names() {
    let rounds = catalog();
    assert!(first_match("   ", &rounds).is_none());
    assert!(!is_bare_variant_name("", &rounds));
    let m = first_match("  虎狼丸 ", &rounds).expect("match");
    assert_eq!(m.2.as_deref(), Some("v_hlw"));
}

#[test]
fn gift_items_are_splittable_but_whole_boxes_are_not() {
    let g = item("g", "特典", ItemKind::Gift, &[], vec![]);
    let w = item("w", "整盒", ItemKind::WholeBox, &[], vec![]);
    assert!(is_splittable(&g));
    assert!(!is_splittable(&w));
}

#[test]
fn resolve_item_exact_item_name_resolves_without_variant() {
    let rounds = catalog();
    let r = resolve_item(&claim("人事部简历"), &rounds);
    assert!(r.resolved);
    assert_eq!(r.item_id.unwrap().0, "hr_resume");
    assert_eq!(r.variant_id, None);
    assert_eq!(r.round_id.unwrap().0, "r1");
}

#[test]
fn resolve_item_close_scores_are_ambiguous() {
    // Both item names contain "SP-月行水上": 400 + 100 each, a tie.
    let rounds = ctx(vec![
        item("a", "甲SP-月行水上", ItemKind::Split, &[], vec![]),
        item("b", "乙SP-月行水上", ItemKind::Split, &[], vec![]),
    ]);
    let r = resolve_item(&claim("SP-月行水上"), &rounds);
    assert!(!r.resolved);
    assert_eq!(r.ambiguity.as_deref(), Some("匹配到多个商品：(r1,a), (r1,b)"));
    assert_eq!(r.candidates.len(), 2);
    assert_eq!(r.candidates[0].2, 500);
}

#[test]
fn resolve_item_wrong_claim_type_finds_nothing() {
    // A single-claim item scores 400 - 500 for a split claim: not found.
    let rounds = ctx(vec![item("s", "单领卡片", ItemKind::Single, &[], vec![])]);
    let r = resolve_item(&claim("单领卡"), &rounds);
    assert!(!r.resolved);
    assert!(r.ambiguity.is_none());
    assert!(r.item_id.is_none());
}

#[test]
fn resolve_multiple_items_keeps_order() {
    let rounds = catalog();
    let rs = resolve_multiple_items(&[claim("风尚速递"), claim("悠人")], &rounds);
    assert_eq!(rs.len(), 2);
    assert_eq!(rs[0].item_id.as_ref().unwrap().0, "fashion");
    assert!(!rs[1].resolved);
}
