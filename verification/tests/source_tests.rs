use rabbit_digger_pro::sources::{
    poll_outcome, retry_decision, ContentStep, ImportSource, ImportStorage, ImportUrl, WaitPlan,
};
use rabbit_digger_pro::storage::{strip_bom, MemoryStorage, StorageItem};
use rabbit_digger_pro::Error;

#[test]
fn test_import_source_cache_key() {
    let p = ImportSource::new_path("C:/tmp/a.yaml".to_string());
    assert!(p.cache_key().starts_with("path:"));

    let poll = ImportSource::new_poll("http://example.invalid".to_string(), Some(1));
    assert_eq!(poll.cache_key(), "poll:http://example.invalid");

    let st = ImportSource::Storage(ImportStorage {
        folder: "f".to_string(),
        key: "k".to_string(),
    });
    assert_eq!(st.cache_key(), "storage:f:k");

    let text = ImportSource::Text("abc".to_string());
    assert_eq!(text.cache_key(), "text");
}

#[test]
fn test_import_source_text_get_content() {
    let s = ImportSource::Text("hello".to_string());
    assert_eq!(
        s.content_step(None, 0),
        ContentStep::UseText("hello".to_string())
    );
}

#[test]
fn fresh_cache_wins_and_stale_cache_is_ignored() {
    let s = ImportSource::new_poll("http://x".to_string(), Some(60));
    let item = StorageItem { updated_at: 100, content: "cached".to_string() };

    // fresh
    assert_eq!(
        s.content_step(Some(&item), 120),
        ContentStep::UseCached("cached".to_string())
    );
    // expired
    assert_eq!(
        s.content_step(Some(&item), 161),
        ContentStep::Fetch("http://x".to_string())
    );
    // empty content never counts as cached
    let empty = StorageItem { updated_at: 100, content: String::new() };
    assert_eq!(
        s.content_step(Some(&empty), 120),
        ContentStep::Fetch("http://x".to_string())
    );
}

#[test]
fn test_import_source_poll_fallback_to_cache_on_error() {
    // a failed fetch falls back to the cached content and never overwrites it
    let cached = StorageItem { updated_at: 5, content: "cached".to_string() };
    let (content, cache_it) = poll_outcome(None, Some(&cached)).unwrap();
    assert_eq!(content, "cached");
    assert!(!cache_it);

    // with nothing cached the poll fails upstream
    let err = poll_outcome(None, None).unwrap_err();
    assert!(matches!(err, Error::Upstream(_)));
}

#[test]
fn test_import_source_poll_success_and_cache_set() {
    let (content, cache_it) = poll_outcome(Some("hello".to_string()), None).unwrap();
    assert_eq!(content, "hello");
    assert!(cache_it);

    // only non-empty bodies are cached
    let (content, cache_it) = poll_outcome(Some(String::new()), None).unwrap();
    assert_eq!(content, "");
    assert!(!cache_it);
}

#[test]
fn test_import_source_poll_wait_returns_when_no_timestamps() {
    let src = ImportSource::new_poll("http://example.invalid".to_string(), Some(1));
    assert_eq!(src.wait_plan(None, None), WaitPlan::Immediate);
}

#[test]
fn wait_plans_follow_the_source_kind() {
    let p = ImportSource::new_path("/tmp/x".to_string());
    assert_eq!(p.wait_plan(None, None), WaitPlan::WatchPath("/tmp/x".to_string()));

    let t = ImportSource::Text("x".to_string());
    assert_eq!(t.wait_plan(None, None), WaitPlan::Never);

    let st = ImportSource::Storage(ImportStorage {
        folder: "f".to_string(),
        key: "k".to_string(),
    });
    assert_eq!(
        st.wait_plan(None, None),
        WaitPlan::WatchStorage("f".to_string(), "k".to_string())
    );

    let poll = ImportSource::new_poll("u".to_string(), Some(10));
    assert_eq!(poll.wait_plan(Some(100), Some(90)), WaitPlan::SleepUntil(110));
    assert_eq!(poll.wait_plan(None, Some(90)), WaitPlan::SleepUntil(100));
    let no_interval = ImportSource::new_poll("u".to_string(), None);
    assert_eq!(no_interval.wait_plan(Some(1), None), WaitPlan::Never);
}

#[test]
fn test_memory_cache_set_get() {
    let mut cache = MemoryStorage::new();
    cache.set("key1".to_string(), "value1".to_string(), 7);
    let item = cache.get("key1").unwrap();
    assert_eq!(item.content, "value1");
    assert_eq!(item.updated_at, 7);
}

#[test]
fn test_memory_cache_get_nonexistent() {
    let cache = MemoryStorage::new();
    assert!(cache.get("nonexistent").is_none());
}

#[test]
fn test_memory_cache_remove() {
    let mut cache = MemoryStorage::new();
    cache.set("key1".to_string(), "value1".to_string(), 1);
    assert!(cache.get("key1").is_some());
    cache.remove("key1");
    assert!(cache.get("key1").is_none());
}

#[test]
fn test_memory_cache_keys() {
    let mut cache = MemoryStorage::new();
    cache.set("key1".to_string(), "value1".to_string(), 1);
    cache.set("key2".to_string(), "value2".to_string(), 2);
    let keys = cache.keys();
    assert_eq!(keys.len(), 2);
}

#[test]
fn test_memory_cache_clear() {
    let mut cache = MemoryStorage::new();
    cache.set("key1".to_string(), "value1".to_string(), 1);
    cache.set("key2".to_string(), "value2".to_string(), 2);
    cache.clear();
    assert_eq!(cache.keys().len(), 0);
}

#[test]
fn test_memory_cache_get_updated_at() {
    let mut cache = MemoryStorage::new();
    cache.set("key1".to_string(), "value1".to_string(), 42);
    assert_eq!(cache.get_updated_at("key1"), Some(42));
    assert_eq!(cache.get_updated_at("other"), None);
}

#[test]
fn test_read_from_path_strips_bom() {
    assert_eq!(strip_bom("\u{feff}hello"), "hello");
    assert_eq!(strip_bom("hello"), "hello");
    assert_eq!(strip_bom(""), "");
}

#[test]
fn retry_repeats_failures_until_the_attempts_run_out() {
    assert!(retry_decision(0, 3, false));
    assert!(retry_decision(1, 3, false));
    assert!(!retry_decision(2, 3, false));
    assert!(!retry_decision(0, 3, true));
    assert!(!retry_decision(0, 1, false));
}
