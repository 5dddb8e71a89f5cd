use std::path::Path;

use paigu::domain::RoundId;
use paigu::publisher::{current_key, versioned_key, LocalPublisher};

fn round(id: &str) -> RoundId {
    RoundId(id.to_string())
}

#[test]
fn bucket_keys_follow_round_layout() {
    assert_eq!(current_key(&round("月行水上")), "rounds/月行水上/current.json");
    assert_eq!(versioned_key(&round("r1"), 12), "rounds/r1/snapshots/12.json");
    assert_eq!(versioned_key(&round("r1"), -3), "rounds/r1/snapshots/-3.json");
    assert_eq!(versioned_key(&round("r1"), 0), "rounds/r1/snapshots/0.json");
}

#[test]
fn local_files_join_like_paths() {
    let p = LocalPublisher::new("data/public".to_string());
    assert_eq!(p.current_file(&round("r1")), "data/public/rounds/r1/current.json");
    assert_eq!(
        Path::new(&p.versioned_file(&round("r1"), 7)),
        Path::new("data/public").join("rounds").join("r1").join("snapshots").join("7.json")
    );

    let trailing = LocalPublisher::new("out/".to_string());
    assert_eq!(trailing.current_file(&round("r2")), "out/rounds/r2/current.json");

    let empty = LocalPublisher::new(String::new());
    assert_eq!(empty.current_file(&round("r3")), "rounds/r3/current.json");

    let absolute = LocalPublisher::new("base".to_string());
    assert_eq!(
        Path::new(&absolute.current_file(&round("/abs"))),
        Path::new("base").join("rounds").join("/abs").join("current.json")
    );
}
