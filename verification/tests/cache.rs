use aptmatic::apt::HostInfo;
use aptmatic::cache::{host_key, load, save, Cache, CacheEntry};
use aptmatic::config::HostConfig;


fn host_cfg(hostname: &str) -> HostConfig {
    HostConfig {
        hostname: hostname.to_string(),
        user: "alice".to_string(),
        port: 22,
        use_sudo: true,
        identity_file: None,
        group: None,
    }
}

#[test]
fn host_key_includes_user_hostname_and_port() {
    assert_eq!(
        host_key(&host_cfg("web1.example.com")),
        "alice@web1.example.com:22"
    );
}

#[test]
fn host_key_differs_by_port() {
    let mut cfg = host_cfg("web1.example.com");
    cfg.port = 2222;
    assert_ne!(host_key(&cfg), host_key(&host_cfg("web1.example.com")));
}

fn entry(kernel: &str, fetched_at_unix: u64) -> CacheEntry {
    CacheEntry {
        info: HostInfo { running_kernel: kernel.to_string(), ..Default::default() },
        fetched_at_unix,
    }
}

#[test]
fn a_cache_that_cannot_be_read_is_empty() {
    assert!(load(None).entries().is_empty());
    assert!(load(Some(vec![])).entries().is_empty());
}

#[test]
fn a_saved_cache_loads_again() {
    let mut cache = Cache::new();
    let key = host_key(&host_cfg("web1.example.com"));
    cache.insert(key.clone(), entry("6.1.0-28-amd64", 12345));
    cache.insert("other".to_string(), entry("5.10", 1));
    let mut stored = save(&cache);
    assert_eq!(stored.len(), 2);
    stored.reverse();
    let loaded = load(Some(stored));
    assert_eq!(loaded.entries().len(), 2);
    let found = loaded.get(&key).unwrap();
    assert_eq!(found.info.running_kernel, "6.1.0-28-amd64");
    assert_eq!(found.fetched_at_unix, 12345);
    assert_eq!(loaded.get("other").unwrap().fetched_at_unix, 1);
}

#[test]
fn a_later_entry_counts() {
    let loaded = load(Some(vec![("k".to_string(), entry("a", 1)), ("k".to_string(), entry("b", 2))]));
    assert_eq!(loaded.get("k").unwrap().fetched_at_unix, 2);
}
