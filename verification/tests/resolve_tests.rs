use ip_resolver::aggregate::{resolve, LookupFailure};
use ip_resolver::vote::pool_winner;

fn body(s: &str) -> Option<String> {
    Some(s.to_string())
}

#[test]
fn majority_wins_in_no_proxy_pool() {
    let no_proxy = vec![body("1.2.3.4"), body("5.6.7.8"), body("1.2.3.4")];
    let proxied: Vec<Option<String>> = Vec::new();
    let info = resolve(&no_proxy, &proxied).unwrap();
    assert_eq!(info.real_ip, "1.2.3.4");
    assert_eq!(info.proxy_ip, None);
    assert!(!info.using_proxy);
}

#[test]
fn equal_winners_mean_no_proxy() {
    let no_proxy = vec![body("7.7.7.7")];
    let proxied = vec![body("7.7.7.7")];
    let info = resolve(&no_proxy, &proxied).unwrap();
    assert_eq!(info.real_ip, "7.7.7.7");
    assert_eq!(info.proxy_ip, Some("7.7.7.7".to_string()));
    assert!(!info.using_proxy);
}

#[test]
fn diverging_winners_mean_proxy() {
    let no_proxy = vec![body("1.2.3.4")];
    let proxied = vec![body("5.6.7.8")];
    let info = resolve(&no_proxy, &proxied).unwrap();
    assert_eq!(info.real_ip, "1.2.3.4");
    assert_eq!(info.proxy_ip, Some("5.6.7.8".to_string()));
    assert!(info.using_proxy);
}

#[test]
fn exhausted_no_proxy_pool_fails_whatever_the_proxied_pool_says() {
    let no_proxy = vec![None, body("no ip"), body("999.999.999.999")];
    let proxied = vec![body("5.6.7.8")];
    let e = resolve(&no_proxy, &proxied).unwrap_err();
    assert_eq!(e, LookupFailure::NoRealIp);
    assert_eq!(e.message(), "Failed to get public IP from all services");
}

#[test]
fn exhausted_proxied_pool_still_succeeds() {
    let no_proxy = vec![body("1.2.3.4")];
    let proxied = vec![None, body("garbage")];
    let info = resolve(&no_proxy, &proxied).unwrap();
    assert_eq!(info.real_ip, "1.2.3.4");
    assert_eq!(info.proxy_ip, None);
    assert!(!info.using_proxy);
}

#[test]
fn both_pools_empty_fail() {
    let no_proxy: Vec<Option<String>> = Vec::new();
    let proxied: Vec<Option<String>> = Vec::new();
    let e = resolve(&no_proxy, &proxied).unwrap_err();
    assert_eq!(e, LookupFailure::NoRealIp);
}

#[test]
fn resolving_twice_gives_identical_results() {
    let no_proxy = vec![body("{\"ip\":\"1.2.3.4\"}"), body("1.2.3.4"), body("2.2.2.2")];
    let proxied = vec![body("{\"origin\":\"5.6.7.8\"}")];
    let a = resolve(&no_proxy, &proxied).unwrap();
    let b = resolve(&no_proxy, &proxied).unwrap();
    assert_eq!(a.real_ip, b.real_ip);
    assert_eq!(a.proxy_ip, b.proxy_ip);
    assert_eq!(a.using_proxy, b.using_proxy);
}

#[test]
fn tie_goes_to_the_candidate_seen_first() {
    let pool = vec![body("9.9.9.9"), body("8.8.8.8")];
    let w = pool_winner(&pool);
    assert_eq!(w, Some("9.9.9.9".to_string()));
}

#[test]
fn empty_pool_has_no_winner() {
    let pool: Vec<Option<String>> = Vec::new();
    assert_eq!(pool_winner(&pool), None);
}

#[test]
fn mixed_response_shapes_vote_together() {
    let no_proxy = vec![
        body("{\"ip\":\"1.2.3.4\"}"),
        body("{\"origin\":\"1.2.3.4, 9.9.9.9\"}"),
        body("x 5.6.7.8"),
    ];
    let proxied: Vec<Option<String>> = Vec::new();
    let info = resolve(&no_proxy, &proxied).unwrap();
    assert_eq!(info.real_ip, "1.2.3.4");
}
