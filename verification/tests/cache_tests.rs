use std::sync::mpsc::channel;

use nash::cache::SuggestionCache;

fn cx(s: &str) -> Vec<char> {
    s.chars().collect()
}

fn seeded_cache(names: &[&str]) -> SuggestionCache {
    let (tx, rx) = channel();
    for n in names {
        tx.send(n.chars().collect()).unwrap();
    }
    drop(tx);
    let mut cache = SuggestionCache::new(rx);
    for _ in names {
        cache.ingest_one();
    }
    cache
}

#[test]
fn search_returns_matches_in_cache_order() {
    let cache = seeded_cache(&["ls", "cp", "lsof", "mv"]);
    assert_eq!(cache.search(&cx("l")), vec![cx("ls"), cx("lsof")]);
    assert_eq!(cache.search(&cx("lso")), vec![cx("lsof")]);
    assert_eq!(cache.search(&cx("mv")), vec![cx("mv")]);
}

#[test]
fn search_empty_prefix_returns_everything() {
    let cache = seeded_cache(&["ls", "cp"]);
    assert_eq!(cache.search(&cx("")), vec![cx("ls"), cx("cp")]);
}

#[test]
fn search_no_match_returns_nothing() {
    let cache = seeded_cache(&["ls", "cp"]);
    assert_eq!(cache.search(&cx("zz")).len(), 0);
}

#[test]
fn search_keeps_duplicates() {
    let cache = seeded_cache(&["ls", "ls"]);
    assert_eq!(cache.search(&cx("ls")), vec![cx("ls"), cx("ls")]);
}

#[test]
fn pull_more_appends_up_to_first_match() {
    let (tx, rx) = channel();
    for n in ["foo", "bar", "baz"] {
        tx.send(n.chars().collect()).unwrap();
    }
    drop(tx);
    let mut cache = SuggestionCache::new(rx);
    assert!(cache.pull_more(&cx("ba")));
    assert_eq!(cache.items, vec![cx("foo"), cx("bar")]);
    assert_eq!(cache.search(&cx("ba")), vec![cx("bar")]);
}

#[test]
fn pull_more_false_only_when_exhausted() {
    let (tx, rx) = channel();
    for n in ["foo", "bar"] {
        tx.send(n.chars().collect()).unwrap();
    }
    drop(tx);
    let mut cache = SuggestionCache::new(rx);
    assert!(!cache.pull_more(&cx("zz")));
    assert_eq!(cache.items, vec![cx("foo"), cx("bar")]);
    assert!(!cache.pull_more(&cx("fo")));
    assert_eq!(cache.items.len(), 2);
}

#[test]
fn ingest_one_moves_at_most_one_name() {
    let (tx, rx) = channel();
    tx.send(cx("ls")).unwrap();
    drop(tx);
    let mut cache = SuggestionCache::new(rx);
    assert_eq!(cache.items.len(), 0);
    cache.ingest_one();
    assert_eq!(cache.items, vec![cx("ls")]);
    cache.ingest_one();
    assert_eq!(cache.items.len(), 1);
}
