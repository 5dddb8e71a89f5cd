use paigu::parser::llm_client::ParseContext;
use paigu::parser::parse_cache::{
    compute_input_hash, format_input_hash, parse_step, remember_model_parse, ParseCache,
    ParseCacheEntry, ParseStep,
};
use paigu::parser::parsed_event::{ParsedIntent, ParsedMessage};
use paigu::replay::replay_options::ParserMode;

fn parsed(confidence_pct: u32) -> ParsedMessage {
    ParsedMessage {
        intent: ParsedIntent::Claim,
        round_hint: None,
        items: vec![],
        cancel_target_hint: None,
        admin_command: None,
        confidence_pct,
        ambiguous_parts: vec![],
    }
}

fn ctx() -> ParseContext {
    ParseContext {
        text: "排 通行证 1".to_string(),
        group_id: "g1".to_string(),
        user_id: "u1".to_string(),
        message_id: "m1".to_string(),
    }
}

#[test]
fn input_hash_is_sha256_of_text_group_user() {
    assert_eq!(
        compute_input_hash("a", "b", "c"),
        "sha256:ba7816bf8f01cfea414140de5dae2223b00361a396177a9cb410ff61f20015ad"
    );
    assert_eq!(
        compute_input_hash("", "", ""),
        "sha256:e3b0c44298fc1c149afbf4c8996fb92427ae41e4649b934ca495991b7852b855"
    );
    assert_ne!(compute_input_hash("ab", "c", ""), compute_input_hash("a", "bd", ""));
    assert_eq!(format_input_hash(&[0x0a, 0x14, 0x1e]), "sha256:0a141e");
}

#[test]
fn cache_returns_entry_only_for_same_input() {
    let mut cache = ParseCache::new();
    assert_eq!(cache.len(), 0);
    let c = ctx();
    let entry = ParseCacheEntry::new(
        "m1".to_string(),
        &c.text,
        &c.group_id,
        &c.user_id,
        parsed(80),
        "v1".to_string(),
        "model-a".to_string(),
    );
    let hash = entry.input_hash.clone();
    cache.insert(entry);
    assert_eq!(cache.len(), 1);
    assert_eq!(cache.get("m1", &hash).unwrap().parsed_message.confidence_pct, 80);
    assert!(cache.get("m1", "sha256:other").is_none());
    assert!(cache.get("m2", &hash).is_none());

    let again = ParseCacheEntry::new("m1".to_string(), &c.text, &c.group_id, &c.user_id, parsed(95), String::new(), "model-b".to_string());
    cache.insert(again);
    assert_eq!(cache.len(), 1);
    let got = cache.get("m1", &hash).unwrap();
    assert_eq!(got.parsed_message.confidence_pct, 95);
    assert_eq!(got.model_name, "model-b");
}

#[test]
fn parse_step_follows_the_mode() {
    let mut cache = ParseCache::new();
    let c = ctx();
    assert!(matches!(parse_step(&ParserMode::LiveLlm, &cache, &c), ParseStep::AskModel));
    assert!(matches!(parse_step(&ParserMode::RuleOnly, &cache, &c), ParseStep::NotImplemented));
    let cached = ParserMode::CachedParse { cache_path: "x".to_string() };
    let hybrid = ParserMode::HybridCachedThenLlm { cache_path: "x".to_string() };
    assert!(matches!(parse_step(&cached, &cache, &c), ParseStep::CacheMiss));
    assert!(matches!(parse_step(&hybrid, &cache, &c), ParseStep::AskModel));

    remember_model_parse(&ParserMode::LiveLlm, &mut cache, &c, parsed(70), "m".to_string());
    assert_eq!(cache.len(), 0);
    remember_model_parse(&hybrid, &mut cache, &c, parsed(70), "m".to_string());
    assert_eq!(cache.len(), 1);
    match parse_step(&hybrid, &cache, &c) {
        ParseStep::Cached(p) => assert_eq!(p.confidence_pct, 70),
        _ => panic!("expected a cached parse"),
    }
    match parse_step(&cached, &cache, &c) {
        ParseStep::Cached(p) => assert_eq!(p.confidence_pct, 70),
        _ => panic!("expected a cached parse"),
    }
    let mut changed = ctx();
    changed.text = "排 通行证 2".to_string();
    assert!(matches!(parse_step(&cached, &cache, &changed), ParseStep::CacheMiss));
}
