use nexq::web_cache::WebAnswerCache;
use std::time::Duration;

#[test]
fn normalizes_query_keys_and_returns_sources() {
    let mut cache = WebAnswerCache::with_limits(4, Duration::from_secs(60));
    cache.insert("  Latest   paper   on   robotics ", "answer".to_string(), vec![]);

    let hit = cache.get("latest paper on robotics");
    assert_eq!(hit.map(|(answer, _)| answer), Some("answer".to_string()));
}

#[test]
fn evicts_oldest_entry_when_capacity_is_reached() {
    let mut cache = WebAnswerCache::with_limits(1, Duration::from_secs(60));
    cache.insert("first", "one".to_string(), vec![]);
    cache.insert("second", "two".to_string(), vec![]);

    assert!(cache.get("first").is_none());
    assert_eq!(cache.get("second").map(|(answer, _)| answer), Some("two".to_string()));
    assert_eq!(cache.len(), 1);
}

#[test]
fn expires_entries_without_sleeping() {
    let mut cache = WebAnswerCache::with_limits(1, Duration::ZERO);
    cache.insert("stale", "answer".to_string(), vec![]);
    assert!(cache.get("stale").is_none());
}

#[test]
fn keys_are_collapsed_and_lowercased() {
    assert_eq!(WebAnswerCache::normalize_key("  Latest   PAPER\ton\nRobotics "), "latest paper on robotics");
    assert_eq!(WebAnswerCache::normalize_key("   "), "");
}

#[test]
fn blank_keys_are_never_stored() {
    let mut cache = WebAnswerCache::with_limits(2, Duration::from_secs(60));
    cache.insert("   ", "answer".to_string(), vec![]);
    assert_eq!(cache.len(), 0);
    assert!(cache.get("").is_none());
}

#[test]
fn get_at_and_insert_at_follow_the_given_clock() {
    let mut cache = WebAnswerCache::with_limits(2, Duration::from_secs(1));
    cache.insert_at("a", "one".to_string(), vec![], 0);
    cache.insert_at("b", "two".to_string(), vec![], 10);
    // Reading "a" refreshes its last access, so "b" is the oldest.
    assert_eq!(cache.get_at("A", 20).map(|(a, _)| a), Some("one".to_string()));
    cache.insert_at("c", "three".to_string(), vec![], 30);
    assert!(cache.get_at("b", 40).is_none());
    assert_eq!(cache.get_at("c", 40).map(|(a, _)| a), Some("three".to_string()));
    // One second after storing, plus one nanosecond, "a" is stale.
    assert!(cache.get_at("a", 1_000_000_001).is_none());
    assert_eq!(cache.len(), 1);
}

#[test]
fn clearing_drops_everything() {
    let mut cache = WebAnswerCache::default();
    cache.insert("q", "a".to_string(), vec![]);
    cache.clear();
    assert_eq!(cache.len(), 0);
    assert!(cache.get("q").is_none());
}

#[test]
fn normalizing_twice_changes_nothing() {
    for key in ["  Latest   PAPER\ton\nRobotics ", "a", "", " x  Y ", "Ünïcode  WORDS"] {
        let once = WebAnswerCache::normalize_key(key);
        assert_eq!(WebAnswerCache::normalize_key(&once), once);
    }
}

#[test]
fn nanosecond_limits_are_exact() {
    let mut cache = WebAnswerCache::with_limits_nanos(0, 5);
    cache.insert_at("k", "v".to_string(), vec![], 100);
    assert_eq!(cache.get_at("k", 105).map(|(a, _)| a), Some("v".to_string()));
    assert!(cache.get_at("k", 106).is_none());
    // A capacity of zero still keeps one answer.
    cache.insert_at("a", "1".to_string(), vec![], 200);
    cache.insert_at("b", "2".to_string(), vec![], 201);
    assert_eq!(cache.len(), 1);
}

#[test]
fn storing_under_a_present_key_evicts_nothing() {
    let mut cache = WebAnswerCache::with_limits_nanos(2, 1_000);
    cache.insert_at("A  key", "one".to_string(), vec![], 0);
    cache.insert_at("other", "two".to_string(), vec![], 1);
    cache.insert_at("a KEY", "three".to_string(), vec![], 2);
    assert_eq!(cache.len(), 2);
    assert_eq!(cache.get_at("a key", 3).map(|(a, _)| a), Some("three".to_string()));
    assert_eq!(cache.get_at("other", 3).map(|(a, _)| a), Some("two".to_string()));
}

#[test]
fn with_limits_takes_the_time_to_live_from_the_duration() {
    let mut cache = WebAnswerCache::with_limits(2, Duration::from_nanos(5));
    cache.insert_at("k", "v".to_string(), vec![], 100);
    assert_eq!(cache.get_at("k", 105).map(|(a, _)| a), Some("v".to_string()));
    assert!(cache.get_at("k", 106).is_none());
    let mut long = WebAnswerCache::with_limits(2, Duration::from_secs(1));
    long.insert_at("k", "v".to_string(), vec![], 0);
    assert!(long.get_at("k", 1_000_000_000).is_some());
    assert!(long.get_at("k", 1_000_000_001).is_none());
}
