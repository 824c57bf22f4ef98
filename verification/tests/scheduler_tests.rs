use ddns_core::cfg::{AppConfig, HttpCfg, ProviderCfg, SchedulerCfg};
use ddns_core::schedule::CronSchedule;
use ddns_core::error::CoreError;
use ddns_core::provider::{init_providers, parse_record_type, seed_status, ProviderKind, RecordType};
use ddns_core::scheduler::{one_cycle, CycleReport, ProviderRun};
use ddns_core::status::{AppStatus, Event};

fn provider_cfg(kind: &str, alias: Option<&str>) -> ProviderCfg {
    ProviderCfg {
        kind: kind.to_string(),
        zone: "example.com".to_string(),
        record: "test-ddns".to_string(),
        alias: alias.map(|a| a.to_string()),
        record_type: "A".to_string(),
        ttl: 60,
        token: "tok".to_string(),
        access_key: Some("ak".to_string()),
        access_secret: Some("sk".to_string()),
        region: None,
    }
}

fn config(providers: Vec<ProviderCfg>) -> AppConfig {
    AppConfig {
        http: HttpCfg::default(),
        scheduler: SchedulerCfg { cron: None, concurrency: Some(1) },
        detect: Vec::new(),
        provider: providers,
    }
}

fn run(results: &[bool], error: &str) -> ProviderRun {
    ProviderRun { results: results.to_vec(), error: error.to_string() }
}

#[test]
fn record_types_parse_case_insensitively() {
    assert_eq!(parse_record_type(&"AAAA".to_string()), RecordType::AAAA);
    assert_eq!(parse_record_type(&"aaaa".to_string()), RecordType::AAAA);
    assert_eq!(parse_record_type(&"AaAa".to_string()), RecordType::AAAA);
    assert_eq!(parse_record_type(&"A".to_string()), RecordType::A);
    assert_eq!(parse_record_type(&"".to_string()), RecordType::A);
    assert_eq!(RecordType::AAAA.rtype_str(), "AAAA");
    assert_eq!(RecordType::A.rtype_str(), "A");
}

#[test]
fn init_providers_builds_one_entry_per_config() {
    let cfg = config(vec![
        provider_cfg("Cloudflare", Some("cf-main")),
        provider_cfg("aliyun", None),
    ]);
    let entries = init_providers(&cfg).unwrap();
    assert_eq!(entries.len(), 2);
    assert_eq!(entries[0].key, "cf-main");
    assert_eq!(entries[0].kind, ProviderKind::Cloudflare);
    assert_eq!(entries[0].token, "tok");
    assert_eq!(entries[1].key, "aliyun");
    assert_eq!(entries[1].kind, ProviderKind::Aliyun);
    assert_eq!(entries[1].access_key, "ak");
    assert_eq!(entries[1].access_secret, "sk");
    assert_eq!(entries[1].region, "cn-hangzhou");
}

#[test]
fn init_providers_rejects_an_unknown_kind() {
    let cfg = config(vec![provider_cfg("route53", None)]);
    let err = init_providers(&cfg).unwrap_err();
    assert!(matches!(err, CoreError::Fatal(_)));
    assert!(err.message().contains("route53"));
}

#[test]
fn init_providers_rejects_missing_aliyun_credentials() {
    let mut p = provider_cfg("aliyun", None);
    p.access_key = None;
    let cfg = config(vec![p]);
    let err = init_providers(&cfg).unwrap_err();
    assert!(err.message().contains("access_key"));
}

#[test]
fn init_providers_rejects_duplicate_display_keys() {
    let cfg = config(vec![
        provider_cfg("cloudflare", Some("same")),
        provider_cfg("aliyun", Some("same")),
    ]);
    let err = init_providers(&cfg).unwrap_err();
    assert!(err.message().contains("duplicate"));
}

#[test]
fn seeding_pre_populates_every_provider_key() {
    let cfg = config(vec![
        provider_cfg("cloudflare", Some("a")),
        provider_cfg("aliyun", Some("b")),
    ]);
    let entries = init_providers(&cfg).unwrap();
    let mut status = AppStatus::new();
    seed_status(&mut status, &entries);
    assert!(status.get_stat(&"a".to_string()).is_some());
    assert!(status.get_stat(&"b".to_string()).is_some());
}

#[test]
fn a_cycle_with_a_detection_success_and_a_second_attempt_provider() {
    // One detector that returns "203.0.113.5"; one provider that
    // fails once and succeeds on its second attempt.
    let cfg = config(vec![provider_cfg("cloudflare", Some("thatkey"))]);
    let entries = init_providers(&cfg).unwrap();
    let mut status = AppStatus::new();
    seed_status(&mut status, &entries);

    let detect_results = vec![Some("203.0.113.5".to_string())];
    let runs = vec![run(&[false, true, false, false, false, false], "transient")];
    let rep = one_cycle(&mut status, &entries, &detect_results, &runs, None, 1_700_000_000);

    assert_eq!(rep.ip, Some("203.0.113.5".to_string()));
    assert_eq!(rep.detect_attempts, 1);
    assert_eq!(rep.outcomes.len(), 1);
    assert!(rep.outcomes[0].success);
    assert_eq!(rep.outcomes[0].attempts, 2);
    assert_eq!(rep.outcomes[0].waits, vec![10]);

    assert_eq!(status.current_ip, Some("203.0.113.5".to_string()));
    assert_eq!(status.now, 1_700_000_000);
    assert!(status.next_tick.is_none());
    let stat = status.get_stat(&"thatkey".to_string()).unwrap();
    assert_eq!(stat.last_ok, Some(1_700_000_000));
    assert!(stat.last_err.is_none());
}

fn two_provider_cycle(first_fails: bool) -> (AppStatus, CycleReport) {
    let (a, b) = if first_fails { ("bad", "good") } else { ("good", "bad") };
    let cfg = config(vec![provider_cfg("cloudflare", Some(a)), provider_cfg("aliyun", Some(b))]);
    let entries = init_providers(&cfg).unwrap();
    let mut status = AppStatus::new();
    seed_status(&mut status, &entries);
    let detect_results = vec![Some("203.0.113.5".to_string())];
    let mk = |key: &str| {
        if key == "bad" {
            run(&[false; 6], "api rejected the record")
        } else {
            run(&[true, false, false, false, false, false], "")
        }
    };
    let runs = vec![mk(a), mk(b)];
    let rep = one_cycle(&mut status, &entries, &detect_results, &runs, None, 42);
    (status, rep)
}

#[test]
fn one_failing_provider_never_drags_down_the_other() {
    for first_fails in [true, false] {
        let (status, rep) = two_provider_cycle(first_fails);
        // both providers completed within the one cycle
        assert_eq!(rep.outcomes.len(), 2);
        let bad = status.get_stat(&"bad".to_string()).unwrap();
        assert!(bad.last_err.is_some());
        assert!(!bad.last_err.as_ref().unwrap().is_empty());
        assert!(bad.last_ok.is_none());
        let good = status.get_stat(&"good".to_string()).unwrap();
        assert_eq!(good.last_ok, Some(42));
        assert!(good.last_err.is_none());
        // the failing provider was attempted six times
        let bad_idx = if first_fails { 0 } else { 1 };
        assert_eq!(rep.outcomes[bad_idx].attempts, 6);
        assert!(!rep.outcomes[bad_idx].success);
        assert_eq!(rep.outcomes[1 - bad_idx].attempts, 1);
    }
}

#[test]
fn a_failed_detection_updates_nothing() {
    let cfg = config(vec![provider_cfg("cloudflare", Some("thatkey"))]);
    let entries = init_providers(&cfg).unwrap();
    let mut status = AppStatus::new();
    seed_status(&mut status, &entries);
    status.set_detected(100, "198.51.100.1".to_string(), None);
    status.set_stat(&"thatkey".to_string(), Some(100), None);

    let detect_results: Vec<Option<String>> = vec![None, None];
    let runs = vec![run(&[true; 6], "")];
    let rep = one_cycle(&mut status, &entries, &detect_results, &runs, None, 999);

    assert!(rep.ip.is_none());
    assert_eq!(rep.detect_attempts, 2);
    assert!(rep.outcomes.is_empty());
    assert!(rep.events.is_empty());
    // the store is exactly as it was before the cycle
    assert_eq!(status.now, 100);
    assert_eq!(status.current_ip, Some("198.51.100.1".to_string()));
    let stat = status.get_stat(&"thatkey".to_string()).unwrap();
    assert_eq!(stat.last_ok, Some(100));
    assert!(stat.last_err.is_none());
}

#[test]
fn error_messages_are_carried_verbatim() {
    let fatal = CoreError::Fatal("cannot start".to_string());
    assert_eq!(fatal.message(), "cannot start");
    let retryable = CoreError::Retryable("try again".to_string());
    assert_eq!(retryable.message(), "try again");
}

#[test]
fn a_cycle_with_no_strategies_fails_detection() {
    let cfg = config(vec![provider_cfg("cloudflare", Some("k"))]);
    let entries = init_providers(&cfg).unwrap();
    let mut status = AppStatus::new();
    seed_status(&mut status, &entries);
    let detect_results: Vec<Option<String>> = Vec::new();
    let runs = vec![run(&[true; 6], "")];
    let rep = one_cycle(&mut status, &entries, &detect_results, &runs, None, 1);
    assert!(rep.ip.is_none());
    assert_eq!(rep.detect_attempts, 0);
    assert!(status.current_ip.is_none());
}

#[test]
fn a_cycle_with_no_providers_still_records_the_address() {
    let cfg = config(Vec::new());
    let entries = init_providers(&cfg).unwrap();
    assert!(entries.is_empty());
    let mut status = AppStatus::new();
    let detect_results = vec![Some("203.0.113.5".to_string())];
    let runs: Vec<ProviderRun> = Vec::new();
    let rep = one_cycle(&mut status, &entries, &detect_results, &runs, None, 7);
    assert_eq!(rep.events.len(), 2);
    assert!(rep.outcomes.is_empty());
    assert_eq!(status.current_ip, Some("203.0.113.5".to_string()));
    assert_eq!(status.now, 7);
}

#[test]
fn a_recurring_cycle_stamps_the_next_scheduled_run() {
    let cfg = config(vec![provider_cfg("cloudflare", Some("k"))]);
    let entries = init_providers(&cfg).unwrap();
    let mut status = AppStatus::new();
    seed_status(&mut status, &entries);

    // at minute 0, second 0 of every hour; 1_000_000s is inside hour 277
    let cron = CronSchedule::new(&"0 0 * * * *".to_string()).unwrap();
    let detect_results = vec![Some("203.0.113.5".to_string())];
    let runs = vec![run(&[true, false, false, false, false, false], "")];
    one_cycle(&mut status, &entries, &detect_results, &runs, Some(&cron), 1_000_000);

    assert_eq!(status.now, 1_000_000);
    assert_eq!(status.next_tick, Some(278 * 3600));
    assert_eq!(status.current_ip, Some("203.0.113.5".to_string()));
}

#[test]
fn a_cycle_publishes_status_and_log_events_in_order() {
    let (_, rep) = two_provider_cycle(true);
    assert_eq!(rep.events.len(), 6);
    match &rep.events[0] {
        Event::Status(s) => assert_eq!(s.current_ip, Some("203.0.113.5".to_string())),
        Event::Log(_) => panic!("expected a status event first"),
    }
    match &rep.events[1] {
        Event::Log(l) => assert_eq!(l, "detected IP 203.0.113.5"),
        Event::Status(_) => panic!("expected a log event"),
    }
    match &rep.events[3] {
        Event::Log(l) => assert_eq!(l, "bad give up: api rejected the record"),
        Event::Status(_) => panic!("expected a log event"),
    }
    match &rep.events[5] {
        Event::Log(l) => assert_eq!(l, "good OK"),
        Event::Status(_) => panic!("expected a log event"),
    }
}
