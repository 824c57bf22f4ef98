use ddns_core::cfg::DetectCfg;
use ddns_core::detector::{clean_address, compute_try_order, resolve_detection};
use ddns_core::error::IfaceError;
use ddns_core::netif::{detect_iface, pick_iface_ipv4, IfaceAddr, IfaceInfo};

fn http(url: &str, priority: Option<u32>) -> DetectCfg {
    DetectCfg::Http { url: url.to_string(), timeout: None, priority }
}

fn strategies(priorities: &[Option<u32>]) -> Vec<DetectCfg> {
    priorities
        .iter()
        .enumerate()
        .map(|(i, p)| http(&format!("http://detector-{i}"), *p))
        .collect()
}

fn url_of(d: &DetectCfg) -> String {
    match d {
        DetectCfg::Http { url, .. } => url.clone(),
        _ => panic!("expected an http strategy"),
    }
}

#[test]
fn try_order_sorts_by_priority() {
    let list = strategies(&[Some(30), Some(10), Some(20)]);
    let order = compute_try_order(&list);
    assert_eq!(order, vec![1, 2, 0]);
}

#[test]
fn try_order_is_stable_on_equal_priorities() {
    let list = strategies(&[Some(10), None, Some(100), Some(10)]);
    // priorities: 10, 100 (default), 100, 10 — ties keep declaration order
    let order = compute_try_order(&list);
    assert_eq!(order, vec![0, 3, 1, 2]);
}

#[test]
fn try_order_is_canonical_for_distinct_priorities() {
    // Reordering the input list yields the same sequence of strategies.
    let a = strategies(&[Some(3), Some(1), Some(2)]);
    let mut b = strategies(&[Some(3), Some(1), Some(2)]);
    b.reverse();
    let tried_a: Vec<String> =
        compute_try_order(&a).into_iter().map(|i| url_of(&a[i])).collect();
    let tried_b: Vec<String> =
        compute_try_order(&b).into_iter().map(|i| url_of(&b[i])).collect();
    assert_eq!(tried_a, tried_b);
    assert_eq!(
        tried_a,
        vec![
            "http://detector-1".to_string(),
            "http://detector-2".to_string(),
            "http://detector-0".to_string()
        ]
    );
}

#[test]
fn second_strategy_wins_and_later_ones_are_not_consulted() {
    let outcomes = vec![
        None,
        Some("198.51.100.7".to_string()),
        Some("203.0.113.9".to_string()),
    ];
    let r = resolve_detection(&outcomes);
    assert_eq!(r.ip, Some("198.51.100.7".to_string()));
    assert_eq!(r.attempts, 2);
}

#[test]
fn detection_fails_when_every_strategy_fails() {
    let outcomes: Vec<Option<String>> = vec![None, None, None];
    let r = resolve_detection(&outcomes);
    assert!(r.ip.is_none());
    assert_eq!(r.attempts, 3);
}

#[test]
fn clean_address_trims_whitespace() {
    assert_eq!(clean_address("  203.0.113.5\n"), Some("203.0.113.5".to_string()));
    assert_eq!(clean_address("203.0.113.5"), Some("203.0.113.5".to_string()));
    assert_eq!(clean_address("\t1.2.3.4 \r\n"), Some("1.2.3.4".to_string()));
}

#[test]
fn clean_address_rejects_an_empty_body() {
    assert_eq!(clean_address(""), None);
    assert_eq!(clean_address("  \r\n\t "), None);
}

fn table() -> Vec<IfaceInfo> {
    vec![
        IfaceInfo {
            name: "lo".to_string(),
            addrs: vec![
                IfaceAddr { is_v4: false, addr: "::1".to_string() },
                IfaceAddr { is_v4: true, addr: "127.0.0.1".to_string() },
            ],
        },
        IfaceInfo {
            name: "wg0".to_string(),
            addrs: vec![IfaceAddr { is_v4: false, addr: "fe80::1".to_string() }],
        },
    ]
}

#[test]
fn pick_iface_takes_the_first_ipv4_address() {
    let r = pick_iface_ipv4(&table(), &"lo".to_string());
    assert_eq!(r.unwrap(), "127.0.0.1");
}

#[test]
fn pick_iface_distinguishes_the_two_failures() {
    assert_eq!(pick_iface_ipv4(&table(), &"wg0".to_string()), Err(IfaceError::NoIpv4));
    assert_eq!(pick_iface_ipv4(&table(), &"eth9".to_string()), Err(IfaceError::NotFound));
}

#[test]
fn detect_iface_reports_a_missing_interface() {
    let r = detect_iface(&"no-such-interface-zz9".to_string());
    assert_eq!(r, Err(IfaceError::NotFound));
}
