use ddns_core::cfg::{
    default_listen, default_secret, default_true, default_ttl, display_key, DetectCfg, HttpCfg,
    ProviderCfg, SchedulerCfg,
};

fn provider(kind: &str, alias: Option<&str>) -> ProviderCfg {
    ProviderCfg {
        kind: kind.to_string(),
        zone: "example.com".to_string(),
        record: "test-ddns".to_string(),
        alias: alias.map(|a| a.to_string()),
        record_type: "A".to_string(),
        ttl: 60,
        token: "tok".to_string(),
        access_key: None,
        access_secret: None,
        region: None,
    }
}

#[test]
fn defaults_match_documented_values() {
    assert_eq!(default_listen(), "0.0.0.0:8080");
    assert!(default_true());
    assert_eq!(default_secret(), "dev_only_change_me");
    assert_eq!(default_ttl(), 86400);
}

#[test]
fn http_cfg_default_uses_the_documented_values() {
    let c = HttpCfg::default();
    assert_eq!(c.listen, "0.0.0.0:8080");
    assert!(c.intranet_only);
    assert_eq!(c.jwt_secret, "dev_only_change_me");
    assert_eq!(c.token_ttl_sec, 86400);
    assert!(c.auth.is_none());
}

#[test]
fn display_key_prefers_alias() {
    let with_alias = provider("cloudflare", Some("main"));
    assert_eq!(display_key(&with_alias), "main");
    let without_alias = provider("cloudflare", None);
    assert_eq!(display_key(&without_alias), "cloudflare");
}

#[test]
fn effective_concurrency_defaults_on_absent_or_zero() {
    let absent = SchedulerCfg { cron: None, concurrency: None };
    assert_eq!(absent.effective_concurrency(), 4);
    let zero = SchedulerCfg { cron: None, concurrency: Some(0) };
    assert_eq!(zero.effective_concurrency(), 4);
    let set = SchedulerCfg { cron: None, concurrency: Some(7) };
    assert_eq!(set.effective_concurrency(), 7);
}

#[test]
fn strategy_priority_defaults_to_100() {
    let http = DetectCfg::Http { url: "http://x".to_string(), timeout: None, priority: None };
    assert_eq!(http.priority(), 100);
    let iface = DetectCfg::Interface { iface: "eth0".to_string(), priority: Some(5) };
    assert_eq!(iface.priority(), 5);
    let cmd = DetectCfg::Command { cmd: "true".to_string(), timeout: Some(10), priority: Some(0) };
    assert_eq!(cmd.priority(), 0);
}
