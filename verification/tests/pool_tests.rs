use spider_downloader::pool::{
    build_pooled_client, default_client_settings, default_timeout_ms, host_client_settings,
    request_host, HostTable,
};

fn fresh_client() -> reqwest::Client {
    build_pooled_client(&host_client_settings(default_timeout_ms()))
        .expect("client construction")
}

#[test]
fn settings_carry_the_fixed_pool_parameters() {
    let d = default_client_settings(30_000);
    assert_eq!(d.timeout_ms, 30_000);
    assert_eq!(d.pool_max_idle_per_host, 200);
    assert_eq!(d.pool_idle_timeout_ms, 120_000);
    assert_eq!(d.tcp_keepalive_ms, 60_000);
    assert_eq!(d.connect_timeout_ms, 10_000);
    let h = host_client_settings(5_500);
    assert_eq!(h.timeout_ms, 5_500);
    assert_eq!(h.pool_max_idle_per_host, 50);
    assert_eq!(h.pool_idle_timeout_ms, 90_000);
    assert_eq!(h.tcp_keepalive_ms, 30_000);
    assert_eq!(h.connect_timeout_ms, 5_000);
    assert_eq!(default_timeout_ms(), 30_000);
}

#[test]
fn lookup_on_an_empty_table_misses() {
    let table = HostTable::new();
    assert_eq!(table.len(), 0);
    assert!(table.lookup(&"a.test".to_string()).is_none());
}

#[test]
fn racing_insertions_retain_exactly_one_client_per_host() {
    // Two callers race on the same unseen host: each builds a transient
    // client, only the first is retained, the second is discarded.
    let mut table = HostTable::new();
    let (_c1, retained_first) = table.get_or_insert("a.test".to_string(), fresh_client());
    assert!(retained_first);
    assert_eq!(table.len(), 1);
    let (_c2, retained_second) = table.get_or_insert("a.test".to_string(), fresh_client());
    assert!(!retained_second);
    assert_eq!(table.len(), 1);
}

#[test]
fn distinct_hosts_get_distinct_entries_and_a_repeat_reuses() {
    let mut table = HostTable::new();
    let (_a, inserted_a) = table.get_or_insert("a.test".to_string(), fresh_client());
    assert!(inserted_a);
    let (_b, inserted_b) = table.get_or_insert("b.test".to_string(), fresh_client());
    assert!(inserted_b);
    assert_eq!(table.len(), 2);
    let (_a_again, inserted_again) = table.get_or_insert("a.test".to_string(), fresh_client());
    assert!(!inserted_again);
    assert_eq!(table.len(), 2);
    assert!(table.lookup(&"a.test".to_string()).is_some());
    assert!(table.lookup(&"b.test".to_string()).is_some());
    assert!(table.lookup(&"c.test".to_string()).is_none());
}

#[test]
fn request_host_extracts_the_destination_host() {
    assert_eq!(request_host(&"http://a.test/path?q=1".to_string()).unwrap(), "a.test");
    assert_eq!(request_host(&"https://b.test:8443/".to_string()).unwrap(), "b.test");
}

#[test]
fn request_host_falls_back_to_empty_for_a_hostless_url() {
    assert_eq!(request_host(&"mailto:someone@example.com".to_string()).unwrap(), "");
}

#[test]
fn request_host_rejects_an_unparseable_url() {
    let err = request_host(&"not a url".to_string()).unwrap_err();
    assert!(matches!(err, spider_downloader::errors::DownloadError::UrlParse(_)));
}
