use paigu::services::aliases::{
    alias_plan, dedupe_aliases, keep_suggestions, AliasPlan, AliasSuggestItem, LlmAliasSuggestion,
    SuggestAliasesBody,
};

fn body() -> SuggestAliasesBody {
    SuggestAliasesBody {
        mode: Some("aliases".to_string()),
        items: vec![
            AliasSuggestItem {
                item_id: "pass_sp".to_string(),
                name: "通行认证SP-月行水上".to_string(),
                aliases: vec!["通行证".to_string()],
            },
            AliasSuggestItem {
                item_id: "gift_card".to_string(),
                name: "特典卡组-校园凭证".to_string(),
                aliases: vec!["特典".to_string()],
            },
        ],
    }
}

fn suggestion(id: Option<&str>, aliases: &[&str], verdict: Option<&str>) -> LlmAliasSuggestion {
    LlmAliasSuggestion {
        item_id: id.map(str::to_string),
        aliases: aliases.iter().map(|a| a.to_string()).collect(),
        verdict: verdict.map(str::to_string),
    }
}

#[test]
fn filled_and_best_verdicts_are_kept() {
    let out = vec![
        suggestion(Some("pass_sp"), &["通行证", "通行认证"], Some("filled")),
        suggestion(Some("gift_card"), &["特典", "校园凭证"], Some("best")),
    ];
    let kept = keep_suggestions(&out, &body().items).unwrap();
    assert_eq!(kept.len(), 2);
    assert_eq!(kept[0].item_id, "pass_sp");
    assert_eq!(kept[0].verdict, "filled");
    assert_eq!(kept[0].aliases[1], "通行认证");
    assert_eq!(kept[1].verdict, "best");
}

#[test]
fn unknown_item_ids_keep_nothing() {
    let out = vec![suggestion(Some("nope"), &["x"], Some("filled"))];
    assert!(keep_suggestions(&out, &body().items).is_none());
}

#[test]
fn positional_suggestions_and_fallback_aliases() {
    let out = vec![
        suggestion(None, &[], Some(" BEST ")),
        suggestion(Some(" gift_card "), &[" a ", "a", "", "b"], None),
    ];
    let kept = keep_suggestions(&out, &body().items).unwrap();
    assert_eq!(kept.len(), 2);
    assert_eq!(kept[0].aliases, vec!["通行证".to_string()]);
    assert_eq!(kept[0].verdict, "best");
    assert_eq!(kept[1].aliases, vec!["a".to_string(), "b".to_string()]);
    assert_eq!(kept[1].verdict, "filled");
}

#[test]
fn dedupe_trims_and_drops_repeats() {
    let v = vec![" x ".to_string(), "x".to_string(), "  ".to_string(), "y".to_string()];
    assert_eq!(dedupe_aliases(&v), vec!["x".to_string(), "y".to_string()]);
}

#[test]
fn request_plan_checks_mode_and_items() {
    assert!(matches!(alias_plan(&body()), AliasPlan::Ask));
    let mut b = body();
    b.mode = Some(" Aliases ".to_string());
    assert!(matches!(alias_plan(&b), AliasPlan::Ask));
    b.mode = Some(" other ".to_string());
    match alias_plan(&b) {
        AliasPlan::Degraded(m) => assert_eq!(m, "不支持的 mode：other"),
        _ => panic!("unsupported mode"),
    }
    b.mode = None;
    b.items.clear();
    assert!(matches!(alias_plan(&b), AliasPlan::NoItems));
}
