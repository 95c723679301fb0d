use corro::cache::Cache;
use corro::commands::gist::{gist_cache_key, RESOURCE_TTL_SECONDS};

#[test]
fn cache_get_after_set_within_ttl() {
    let mut cache = Cache::new();
    cache.set(
        String::from("gist::abc"),
        String::from("serialized record"),
        60,
        1000,
    );
    assert_eq!(
        cache.get("gist::abc", 1000),
        Some(String::from("serialized record"))
    );
    assert_eq!(
        cache.get("gist::abc", 1059),
        Some(String::from("serialized record"))
    );
}

#[test]
fn cache_get_after_ttl_elapsed_is_none() {
    let mut cache = Cache::new();
    cache.set(String::from("k"), String::from("v"), 60, 1000);
    assert_eq!(cache.get("k", 1060), None);
    assert_eq!(cache.get("k", 5000), None);
}

#[test]
fn cache_get_absent_key_is_none() {
    let cache = Cache::new();
    assert_eq!(cache.get("missing", 0), None);
}

#[test]
fn cache_last_write_wins_and_other_keys_untouched() {
    let mut cache = Cache::new();
    cache.set(String::from("a"), String::from("one"), 100, 0);
    cache.set(String::from("b"), String::from("two"), 100, 0);
    cache.set(String::from("a"), String::from("three"), 100, 0);
    assert_eq!(cache.get("a", 50), Some(String::from("three")));
    assert_eq!(cache.get("b", 50), Some(String::from("two")));
}

#[test]
fn gist_fetch_is_memoized_within_ttl() {
    // The by-reference flow: a miss triggers exactly one fetch and one
    // store; a second lookup under the same identifier within the
    // time-to-live is served from the cache without a fetch.
    let id = "730ccb458bc9ea43ac0d14eceb7eb40b";
    let key = gist_cache_key(id);
    assert_eq!(key, "gist::730ccb458bc9ea43ac0d14eceb7eb40b");

    let mut cache = Cache::new();
    let mut fetches = 0;

    let now = 10_000;
    let first = match cache.get(&key, now) {
        Some(v) => v,
        None => {
            fetches += 1;
            let fetched = String::from("fn main() {}");
            cache.set(key.clone(), fetched.clone(), RESOURCE_TTL_SECONDS, now);
            fetched
        }
    };
    assert_eq!(fetches, 1);
    assert_eq!(first, "fn main() {}");

    let later = now + RESOURCE_TTL_SECONDS - 1;
    let second = match cache.get(&key, later) {
        Some(v) => v,
        None => {
            fetches += 1;
            String::from("refetched")
        }
    };
    assert_eq!(fetches, 1);
    assert_eq!(second, "fn main() {}");

    let expired = now + RESOURCE_TTL_SECONDS;
    assert_eq!(cache.get(&key, expired), None);
}
