use enterance::FileInfo;
use enterance::update::{
    file_action, load_cache, record_download, FileAction,
    accept_local_hash, after_failed_download, check_cached, CacheVerdict, HashCache, RetryStep,
    MAX_RETRIES,
};

#[test]
fn empty_cache() {
    let c = HashCache::new();
    assert!(c.is_empty());
    assert_eq!(c.len(), 0);
    assert_eq!(c.get("a"), None);
}

#[test]
fn read_after_write() {
    let mut c = HashCache::new();
    c.insert("a".to_string(), "h1".to_string());
    c.insert("b".to_string(), "h2".to_string());
    c.insert("a".to_string(), "h3".to_string());
    assert_eq!(c.get("a").map(|s| s.as_str()), Some("h3"));
    assert_eq!(c.get("b").map(|s| s.as_str()), Some("h2"));
    assert_eq!(c.get("c"), None);
    assert_eq!(c.len(), 2);
    assert!(!c.is_empty());
    let mut e = c.to_entries();
    e.sort();
    assert_eq!(e, vec![("a".to_string(), "h3".to_string()), ("b".to_string(), "h2".to_string())]);
}

#[test]
fn cache_verdicts() {
    let mut c = HashCache::new();
    c.insert("f".to_string(), "ABCDEF".to_string());
    assert_eq!(check_cached(&c, "f", "abcdef"), CacheVerdict::UpToDate);
    assert_eq!(check_cached(&c, "f", "abcde0"), CacheVerdict::Outdated);
    assert_eq!(check_cached(&c, "g", "abcdef"), CacheVerdict::Unknown);
}

#[test]
fn recorded_file_is_up_to_date() {
    let mut c = HashCache::new();
    c.insert("f".to_string(), "0f".to_string());
    assert_eq!(check_cached(&c, "f", "0f"), CacheVerdict::UpToDate);
}

#[test]
fn local_hash_accepted_only_when_equal() {
    let mut c = HashCache::new();
    assert!(!accept_local_hash(&mut c, "f", "aa".to_string(), "bb"));
    assert!(c.is_empty());
    assert!(accept_local_hash(&mut c, "f", "AA".to_string(), "aa"));
    assert_eq!(c.get("f").map(|s| s.as_str()), Some("AA"));
    assert_eq!(check_cached(&c, "f", "aa"), CacheVerdict::UpToDate);
}

#[test]
fn retries_count_down_then_give_up() {
    assert_eq!(MAX_RETRIES, 3);
    let mut retries = MAX_RETRIES;
    let mut announced = Vec::new();
    loop {
        match after_failed_download(retries) {
            RetryStep::GiveUp => break,
            RetryStep::Retry { announced: a, remaining } => {
                announced.push(a);
                retries = remaining;
            }
        }
    }
    assert_eq!(announced, vec![3, 2, 1]);
    assert_eq!(after_failed_download(0), RetryStep::GiveUp);
}

#[test]
fn recording_one_path_keeps_others() {
    let mut c = HashCache::new();
    c.insert("g".to_string(), "11".to_string());
    let before = check_cached(&c, "g", "22");
    c.insert("f".to_string(), "22".to_string());
    assert_eq!(check_cached(&c, "g", "22"), before);
    assert_eq!(before, CacheVerdict::Outdated);
}

#[test]
fn cache_from_entries_last_entry_wins() {
    let entries = vec![
        ("a".to_string(), "1".to_string()),
        ("b".to_string(), "2".to_string()),
        ("a".to_string(), "3".to_string()),
    ];
    let c = HashCache::from_entries(&entries);
    assert_eq!(c.len(), 2);
    assert_eq!(c.get("a").map(|s| s.as_str()), Some("3"));
    assert_eq!(c.get("b").map(|s| s.as_str()), Some("2"));
    assert!(HashCache::from_entries(&Vec::new()).is_empty());
}

#[test]
fn cache_file_text_reads_back() {
    let mut c = HashCache::new();
    c.insert("data/a.dat".to_string(), "00ff".to_string());
    c.insert("b \"quoted\"\\".to_string(), "ü".to_string());
    let text = c.to_json();
    let back = load_cache(Some(&text)).unwrap();
    assert_eq!(back.len(), 2);
    assert_eq!(back.get("data/a.dat").map(|s| s.as_str()), Some("00ff"));
    assert_eq!(back.get("b \"quoted\"\\").map(|s| s.as_str()), Some("ü"));
    let parsed: std::collections::HashMap<String, String> = serde_json::from_str(&text).unwrap();
    assert_eq!(parsed.len(), 2);
}

#[test]
fn load_cache_cases() {
    assert!(load_cache(None).unwrap().is_empty());
    let c = load_cache(Some("{\"x\":\"1\",\"y\":\"2\"}")).unwrap();
    assert_eq!(c.get("x").map(|s| s.as_str()), Some("1"));
    assert_eq!(c.len(), 2);
    assert!(load_cache(Some("not json")).is_none());
    assert!(load_cache(Some("{\"x\":1}")).is_none());
    assert!(load_cache(Some("[]")).is_none());
    assert!(load_cache(Some("{}")).unwrap().is_empty());
}

#[test]
fn file_actions() {
    assert_eq!(file_action(CacheVerdict::UpToDate, true), FileAction::Skip);
    assert_eq!(file_action(CacheVerdict::Outdated, true), FileAction::Download);
    assert_eq!(file_action(CacheVerdict::Unknown, true), FileAction::HashLocal);
    assert_eq!(file_action(CacheVerdict::Unknown, false), FileAction::Download);
}

#[test]
fn recorded_download_is_cached() {
    let mut c = HashCache::new();
    let info = FileInfo { path: "p".to_string(), hash: "AB".to_string(), size: 1, url: "u".to_string() };
    record_download(&mut c, &info);
    assert_eq!(c.get("p").map(|s| s.as_str()), Some("AB"));
    assert_eq!(check_cached(&c, "p", "ab"), CacheVerdict::UpToDate);
}
