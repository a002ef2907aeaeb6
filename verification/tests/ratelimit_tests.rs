use inferrust_proxy::ratelimit::{
    client_identity, connecting_ip_candidate, exceeds_limit, forwarded_for_candidate,
    limiter_step, rate_limit_key, LimiterAction, LimiterEvent, LimiterPhase,
};

fn run(limit: usize, events: &[LimiterEvent]) -> Vec<LimiterAction> {
    let mut phase = LimiterPhase::Start;
    let mut out = Vec::new();
    for e in events {
        let (p, a) = limiter_step(limit, phase, *e);
        phase = p;
        out.push(a);
    }
    out
}

#[test]
fn forwarded_for_takes_first_hop() {
    assert_eq!(forwarded_for_candidate(" 203.0.113.7 , 10.0.0.1"), "203.0.113.7");
    assert_eq!(forwarded_for_candidate("198.51.100.2"), "198.51.100.2");
    assert_eq!(forwarded_for_candidate(",10.0.0.1"), "");
    assert_eq!(forwarded_for_candidate("\t::1\t"), "::1");
}

#[test]
fn connecting_ip_is_trimmed() {
    assert_eq!(connecting_ip_candidate("  192.0.2.5 "), "192.0.2.5");
    assert_eq!(connecting_ip_candidate("a, b"), "a, b");
}

#[test]
fn identity_prefers_proxy_headers_only_behind_proxy() {
    let f = || Some("203.0.113.7".to_string());
    let c = || Some("192.0.2.5".to_string());
    let p = || Some("10.0.0.9".to_string());
    assert_eq!(client_identity(true, f(), c(), p()), "203.0.113.7");
    assert_eq!(client_identity(true, None, c(), p()), "192.0.2.5");
    assert_eq!(client_identity(true, None, None, p()), "10.0.0.9");
    assert_eq!(client_identity(false, f(), c(), p()), "10.0.0.9");
    assert_eq!(client_identity(false, f(), c(), None), "anonymous");
}

#[test]
fn counter_keys_per_client() {
    assert_eq!(rate_limit_key("192.168.1.100"), "rate_limit:192.168.1.100");
    assert_ne!(rate_limit_key("192.168.1.100"), rate_limit_key("10.0.0.5"));
}

// Library-level form of the original end-to-end test: every failure path of
// the counter store forwards the request.
#[test]
fn test_rate_limiter_fail_open_allows_unlimited_requests() {
    assert_eq!(run(5, &[LimiterEvent::StoreAbsent]), vec![LimiterAction::Forward]);
    assert_eq!(
        run(5, &[LimiterEvent::StorePresent, LimiterEvent::ConnectFailed]),
        vec![LimiterAction::Connect, LimiterAction::Forward]
    );
    assert_eq!(
        run(5, &[LimiterEvent::StorePresent, LimiterEvent::Connected, LimiterEvent::CountFailed]),
        vec![LimiterAction::Connect, LimiterAction::Increment, LimiterAction::Forward]
    );
}

// Library-level form of the original end-to-end test, which needs a live
// Redis: a client is rejected after the limit, another client's fresh counter passes.
#[test]
fn test_rate_limiter_enforces_limit_and_isolates_ips() {
    let limit = 100;
    let mut hits = 0;
    for count in 1..=200 {
        let actions = run(limit, &[LimiterEvent::StorePresent, LimiterEvent::Connected, LimiterEvent::Counted(count)]);
        if actions[2] == LimiterAction::Reject {
            break;
        }
        assert_eq!(actions[2], LimiterAction::Forward);
        hits += 1;
    }
    assert_eq!(hits, 100);
    // another client's counter starts afresh
    let other = run(limit, &[LimiterEvent::StorePresent, LimiterEvent::Connected, LimiterEvent::Counted(1)]);
    assert_eq!(other[2], LimiterAction::Forward);
}

#[test]
fn over_limit_comparison() {
    assert!(exceeds_limit(101, 100));
    assert!(!exceeds_limit(100, 100));
    assert!(!exceeds_limit(-5, 0));
    assert!(exceeds_limit(1, 0));
}

#[test]
fn done_ignores_further_events() {
    assert_eq!(
        limiter_step(1, LimiterPhase::Done, LimiterEvent::Counted(50)),
        (LimiterPhase::Done, LimiterAction::Wait)
    );
    assert_eq!(
        limiter_step(1, LimiterPhase::Start, LimiterEvent::Counted(50)),
        (LimiterPhase::Start, LimiterAction::Wait)
    );
}
