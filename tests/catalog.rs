use qproxy::catalog::{
    build_catalog, cache_text, candidates_to_probe, dedup_records, mark_live, needs_probe, parse_lines,
    sort_by_latency,
};
use qproxy::rotation::first_assignment;
use qproxy::{Proxy, ProxyError};

fn rec(s: &str) -> Proxy {
    Proxy::parse(s).unwrap()
}

fn with_latency(s: &str, ms: u64) -> Proxy {
    mark_live(rec(s), ms)
}

#[test]
fn two_candidates_are_ordered_by_latency() {
    let candidates = parse_lines("1.1.1.1:1080:u:p\n2.2.2.2:1080:u:p\n");
    assert_eq!(candidates.len(), 2);
    let cache: Vec<Proxy> = Vec::new();
    let to_probe = candidates_to_probe(&cache, &candidates);
    assert_eq!(to_probe.len(), 2);
    let probed = vec![mark_live(to_probe[0].clone(), 50), mark_live(to_probe[1].clone(), 10)];
    let catalog = build_catalog(&cache, &probed);
    let texts: Vec<String> = catalog.iter().map(|p| p.to_string()).collect();
    assert_eq!(texts, vec!["2.2.2.2:1080:u:p", "1.1.1.1:1080:u:p"]);
    assert_eq!(cache_text(&catalog), "2.2.2.2:1080:u:p\n1.1.1.1:1080:u:p\n");
}

#[test]
fn empty_candidates_leave_no_proxy() {
    let candidates = parse_lines("");
    assert!(candidates.is_empty());
    let mut catalog = build_catalog(&Vec::new(), &candidates);
    assert!(matches!(first_assignment(&mut catalog), Err(ProxyError::ProxyNotSet)));
}

#[test]
fn failed_probe_leaves_no_proxy() {
    let candidates = parse_lines("3.3.3.3:1:u:p\n");
    assert_eq!(candidates.len(), 1);
    let probed: Vec<Proxy> = Vec::new();
    let mut catalog = build_catalog(&Vec::new(), &probed);
    assert!(catalog.is_empty());
    assert_eq!(cache_text(&catalog), "");
    assert!(matches!(first_assignment(&mut catalog), Err(ProxyError::ProxyNotSet)));
}

#[test]
fn unparseable_lines_are_skipped() {
    let got = parse_lines("junk\n1.1.1.1:1080\n\nh:99999\nh:2:u:p");
    let texts: Vec<String> = got.iter().map(|p| p.to_string()).collect();
    assert_eq!(texts, vec!["1.1.1.1:1080", "h:2:u:p"]);
}

#[test]
fn cached_records_are_not_probed_again() {
    let cache = parse_lines("1.1.1.1:1080:u:p\n");
    let candidates = parse_lines("1.1.1.1:1080:u:p\n2.2.2.2:1080:u:p\n");
    assert!(!needs_probe(&cache, &candidates[0]));
    assert!(needs_probe(&cache, &candidates[1]));
    let to_probe = candidates_to_probe(&cache, &candidates);
    assert_eq!(to_probe.len(), 1);
    assert_eq!(to_probe[0].to_string(), "2.2.2.2:1080:u:p");
}

#[test]
fn cached_records_join_the_catalog_first() {
    let cache = parse_lines("9.9.9.9:1:u:p\n");
    let probed = vec![with_latency("1.1.1.1:1:u:p", 0), with_latency("2.2.2.2:1:u:p", 5)];
    let catalog = build_catalog(&cache, &probed);
    let texts: Vec<String> = catalog.iter().map(|p| p.to_string()).collect();
    assert_eq!(texts, vec!["9.9.9.9:1:u:p", "1.1.1.1:1:u:p", "2.2.2.2:1:u:p"]);
}

#[test]
fn sort_keeps_order_of_equal_latencies() {
    let v = vec![
        with_latency("a:1", 30),
        with_latency("b:1", 10),
        with_latency("c:1", 30),
        with_latency("d:1", 10),
        with_latency("e:1", 20),
    ];
    let sorted = sort_by_latency(&v);
    let texts: Vec<String> = sorted.iter().map(|p| p.to_string()).collect();
    assert_eq!(texts, vec!["b:1", "d:1", "e:1", "a:1", "c:1"]);
    for w in sorted.windows(2) {
        assert!(w[0].latency <= w[1].latency);
    }
}

#[test]
fn mark_live_sets_latency_and_liveness() {
    let p = mark_live(rec("h:1:u:p"), 42);
    assert!(p.is_working);
    assert_eq!(p.latency, 42);
    assert_eq!(p.to_string(), "h:1:u:p");
}

#[test]
fn repeated_cache_lines_give_one_entry() {
    let cache = parse_lines("9.9.9.9:1:u:p\n9.9.9.9:1:u:p\n8.8.8.8:1:u:p\n");
    assert_eq!(cache.len(), 3);
    let catalog = build_catalog(&cache, &Vec::new());
    assert_eq!(texts_of(&catalog), vec!["9.9.9.9:1:u:p", "8.8.8.8:1:u:p"]);
    assert_eq!(cache_text(&catalog), "9.9.9.9:1:u:p\n8.8.8.8:1:u:p\n");
}

#[test]
fn repeated_candidates_are_probed_once() {
    let candidates = parse_lines("1.1.1.1:1:u:p\n2.2.2.2:1:u:p\n1.1.1.1:1:u:p\n");
    let to_probe = candidates_to_probe(&Vec::new(), &candidates);
    assert_eq!(texts_of(&to_probe), vec!["1.1.1.1:1:u:p", "2.2.2.2:1:u:p"]);
}

#[test]
fn equal_probed_records_give_one_entry() {
    let probed = vec![with_latency("1.1.1.1:1:u:p", 7), with_latency("1.1.1.1:1:u:p", 7)];
    let catalog = build_catalog(&Vec::new(), &probed);
    assert_eq!(catalog.len(), 1);
    assert_eq!(catalog[0].latency, 7);
}

#[test]
fn dedup_keeps_first_occurrence() {
    let v = vec![rec("b:1"), rec("a:1"), rec("b:1"), rec("c:1"), rec("a:1")];
    assert_eq!(texts_of(&dedup_records(&v)), vec!["b:1", "a:1", "c:1"]);
}

fn texts_of(v: &[Proxy]) -> Vec<String> {
    v.iter().map(|p| p.to_string()).collect()
}
