use scrubarr::query::{build_query_string, delete_queue_params, encode_query, fetch_queue_params};
use scrubarr::schedule::{effective_interval, next_delay};
use scrubarr::settings::{InstanceSettings, Level, LogLevel, Overrides, Settings};

fn params(list: &[(&str, Option<&str>)]) -> Vec<(String, Option<String>)> {
    list.iter().map(|(n, v)| (n.to_string(), v.map(String::from))).collect()
}

#[test]
fn interval_is_raised_to_floor() {
    assert_eq!(effective_interval(0), 300);
    assert_eq!(effective_interval(100), 300);
    assert_eq!(effective_interval(300), 300);
    assert_eq!(effective_interval(600), 600);
}

#[test]
fn delay_is_what_is_left_of_interval() {
    assert_eq!(next_delay(600_000, 1_500), 598_500);
    assert_eq!(next_delay(600_000, 600_000), 0);
    assert_eq!(next_delay(600_000, 900_000), 0);
}

#[test]
fn query_joins_present_values() {
    let q = encode_query(&params(&[("pageSize", Some("1000")), ("x", None), ("status", Some("completed"))]));
    assert_eq!(q.as_deref(), Some("pageSize=1000&status=completed"));
}

#[test]
fn query_without_values_is_none() {
    assert_eq!(encode_query(&params(&[("x", None)])), None);
    assert_eq!(build_query_string(&vec![]), None);
}

#[test]
fn query_names_become_camel_case() {
    let q = build_query_string(&fetch_queue_params());
    assert_eq!(q.as_deref(), Some("pageSize=1000&includeSeries=true&status=completed"));
    let q = build_query_string(&delete_queue_params());
    assert_eq!(q.as_deref(), Some("removeFromClient=true"));
}

#[test]
fn default_settings() {
    let s = Settings::default();
    assert_eq!(s.log_level, LogLevel::Info);
    assert_eq!(s.interval, 600);
    assert!(!s.verbose);
    assert_eq!(s.instances.len(), 1);
    assert_eq!(s.instances[0].0, 1);
    assert_eq!(s.instances[0].1.url, "http://localhost:8989");
    assert!(s.instances[0].1.key.is_none());
    assert_eq!(s.instance_without_key(), Some(1));
}

fn no_overrides() -> Overrides {
    Overrides { api_key: None, log_level: None, url: None, base_path: None, interval: None, verbose: None }
}

#[test]
fn merge_applies_overrides_to_primary_instance() {
    let mut s = Settings::default();
    s.instances.insert(
        0,
        (2, InstanceSettings { base: None, key: Some("k2".into()), url: "http://b:1".into() }),
    );
    s.merge(Overrides {
        api_key: Some("SECRET-REDACTED".into()),
        log_level: Some(Level::Warn),
        url: Some("http://a:2".into()),
        base_path: Some("/sonarr".into()),
        interval: Some(60),
        verbose: Some(true),
    });
    assert_eq!(s.log_level, LogLevel::Warn);
    assert_eq!(s.interval, 300);
    assert!(s.verbose);
    assert_eq!(s.instances.len(), 2);
    assert_eq!(s.instances[0].1.url, "http://b:1");
    assert_eq!(s.instances[1].0, 1);
    assert_eq!(s.instances[1].1.url, "http://a:2");
    assert_eq!(s.instances[1].1.base.as_deref(), Some("/sonarr"));
    assert_eq!(s.instances[1].1.key.as_deref(), Some("SECRET-REDACTED"));
    assert_eq!(s.instance_without_key(), None);
}

#[test]
fn merge_adds_missing_primary_instance() {
    let mut s = Settings { log_level: LogLevel::Off, interval: 900, instances: vec![], verbose: false };
    s.merge(no_overrides());
    assert_eq!(s.log_level, LogLevel::Off);
    assert_eq!(s.interval, 900);
    assert_eq!(s.instances.len(), 1);
    assert_eq!(s.instances[0].0, 1);
    assert_eq!(s.instances[0].1.url, "http://localhost:8989");
}

#[test]
fn level_maps_to_filter() {
    assert_eq!(Level::Trace.to_filter(), LogLevel::Trace);
    assert_eq!(Level::Debug.to_filter(), LogLevel::Debug);
    assert_eq!(Level::Info.to_filter(), LogLevel::Info);
    assert_eq!(Level::Warn.to_filter(), LogLevel::Warn);
    assert_eq!(Level::Error.to_filter(), LogLevel::Error);
}

#[test]
fn overrides_emptiness() {
    assert!(no_overrides().is_empty());
    let mut o = no_overrides();
    o.verbose = Some(false);
    assert!(!o.is_empty());
}
