use ddns_core::status::AppStatus;

#[test]
fn seeding_creates_an_empty_entry_once() {
    let mut st = AppStatus::new();
    st.seed(&"main".to_string());
    st.seed(&"main".to_string());
    assert_eq!(st.providers.len(), 1);
    let stat = st.get_stat(&"main".to_string()).unwrap();
    assert!(stat.last_ok.is_none());
    assert!(stat.last_err.is_none());
}

#[test]
fn a_success_clears_a_stored_error() {
    let mut st = AppStatus::new();
    st.set_stat(&"k".to_string(), None, Some("boom".to_string()));
    let stat = st.get_stat(&"k".to_string()).unwrap();
    assert_eq!(stat.last_err, Some("boom".to_string()));
    assert!(stat.last_ok.is_none());

    st.set_stat(&"k".to_string(), Some(1000), None);
    let stat = st.get_stat(&"k".to_string()).unwrap();
    assert_eq!(stat.last_ok, Some(1000));
    assert!(stat.last_err.is_none());
}

#[test]
fn a_later_error_keeps_the_prior_success_timestamp() {
    let mut st = AppStatus::new();
    st.set_stat(&"k".to_string(), Some(1000), None);
    st.set_stat(&"k".to_string(), None, Some("flaky".to_string()));
    let stat = st.get_stat(&"k".to_string()).unwrap();
    assert_eq!(stat.last_ok, Some(1000));
    assert_eq!(stat.last_err, Some("flaky".to_string()));
}

#[test]
fn one_providers_update_leaves_the_others_alone() {
    let mut st = AppStatus::new();
    st.seed(&"a".to_string());
    st.seed(&"b".to_string());
    st.set_stat(&"a".to_string(), Some(7), None);
    let b = st.get_stat(&"b".to_string()).unwrap();
    assert!(b.last_ok.is_none());
    assert!(b.last_err.is_none());
}

#[test]
fn snapshots_are_immutable_point_in_time_copies() {
    let mut st = AppStatus::new();
    st.set_detected(500, "203.0.113.5".to_string(), Some(600));
    st.set_stat(&"k".to_string(), Some(500), None);

    let snap = st.snapshot();

    st.set_detected(900, "198.51.100.1".to_string(), None);
    st.set_stat(&"k".to_string(), None, Some("late failure".to_string()));
    st.set_stat(&"other".to_string(), Some(901), None);

    assert_eq!(snap.now, 500);
    assert_eq!(snap.next_tick, Some(600));
    assert_eq!(snap.current_ip, Some("203.0.113.5".to_string()));
    assert_eq!(snap.providers.len(), 1);
    assert_eq!(snap.providers[0].key, "k");
    assert_eq!(snap.providers[0].stat.last_ok, Some(500));
    assert!(snap.providers[0].stat.last_err.is_none());
}

#[test]
fn get_stat_reports_a_missing_key() {
    let st = AppStatus::new();
    assert!(st.get_stat(&"nobody".to_string()).is_none());
}
