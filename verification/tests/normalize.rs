use paigu::parser::normalize::{clean_nickname, normalize_claim_item, normalize_fullwidth};
use paigu::parser::parsed_event::ParsedClaimItem;

#[test]
fn clean_nickname_removes_remark() {
    assert_eq!(clean_nickname("甲（备注甲）").1, "甲");
    assert_eq!(clean_nickname("乙.（备注乙）").1, "乙.");
    assert_eq!(clean_nickname("丙/丁（备注丙）").1, "丙/丁");
    assert_eq!(clean_nickname("戊（备注戊👀）").1, "戊");
}

#[test]
fn clean_nickname_proxy_notation() {
    let (identity, display) = clean_nickname("A（代B）");
    assert_eq!(identity, "A");
    assert_eq!(display, "A(B)");
    assert_eq!(clean_nickname("甲(代 乙)").0, "甲");
}

#[test]
fn clean_nickname_normalizes_fullwidth() {
    assert_eq!(clean_nickname("名：015").1, "名:015");
}

fn claim(slot_policy: &str, claim_type: Option<&str>) -> ParsedClaimItem {
    ParsedClaimItem {
        name: "商品".to_string(),
        category_hint: None,
        quantity: 1,
        claim_type: claim_type.map(str::to_string),
        is_proxy_card: None,
        slot_policy: Some(slot_policy.to_string()),
        notes: None,
        resolved_item_id: None,
        resolved_variant_id: None,
        resolved_round_id: None,
    }
}

#[test]
fn whole_box_maps_to_single_queue() {
    let n = normalize_claim_item(&claim("整盒", Some("Split")));
    assert_eq!(n.claim_type.as_deref(), Some("Single"));
    assert_eq!(n.slot_policy.as_deref(), Some("Normal"));

    let n2 = normalize_claim_item(&claim("WholeBox", Some("Split")));
    assert_eq!(n2.claim_type.as_deref(), Some("Single"));
    assert_eq!(n2.slot_policy.as_deref(), Some("Normal"));
}

#[test]
fn full_box_remains_split_strategy() {
    let n = normalize_claim_item(&claim("包盒", Some("Split")));
    assert_eq!(n.claim_type.as_deref(), Some("Split"));
    assert_eq!(n.slot_policy.as_deref(), Some("FullBox"));

    let n2 = normalize_claim_item(&claim("fullbox", Some("Split")));
    assert_eq!(n2.claim_type.as_deref(), Some("Split"));
    assert_eq!(n2.slot_policy.as_deref(), Some("FullBox"));

    let n3 = normalize_claim_item(&claim("包整盒", Some("Split")));
    assert_eq!(n3.claim_type.as_deref(), Some("Split"));
    assert_eq!(n3.slot_policy.as_deref(), Some("FullBox"));
}

#[test]
fn tail_remains_split_tail_locked() {
    let n = normalize_claim_item(&claim("包尾", Some("Split")));
    assert_eq!(n.claim_type.as_deref(), Some("Split"));
    assert_eq!(n.slot_policy.as_deref(), Some("TailLocked"));
}

#[test]
fn fullwidth_letters_digits_and_space_fold_to_ascii() {
    assert_eq!(normalize_fullwidth("ＡＢ１２　！～"), "AB12 !~");
    assert_eq!(normalize_fullwidth("中文"), "中文");
}

#[test]
fn claim_type_gift_and_single_words_are_recognised() {
    let n = normalize_claim_item(&claim("normal", Some("特典")));
    assert_eq!(n.claim_type.as_deref(), Some("GiftClaim"));
    let n = normalize_claim_item(&claim("锁列", Some("单领")));
    assert_eq!(n.claim_type.as_deref(), Some("Single"));
    assert_eq!(n.slot_policy.as_deref(), Some("ColumnLocked"));
    let n = normalize_claim_item(&claim("管理", None));
    assert_eq!(n.claim_type, None);
    assert_eq!(n.slot_policy.as_deref(), Some("AdminFixed"));
}

#[test]
fn folding_twice_is_folding_once() {
    let once = normalize_fullwidth("ＡＢ１２　！～（代）");
    assert_eq!(normalize_fullwidth(&once), once);
}
