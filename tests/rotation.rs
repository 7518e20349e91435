use qproxy::registry::{find_server, PortAllocator};
use qproxy::rotation::{first_assignment, next_proxy, plan_rotation, rotation_active};
use qproxy::{Config, Proxy, ProxyError};

fn rec(s: &str) -> Proxy {
    Proxy::parse(s).unwrap()
}

fn texts(v: &[Proxy]) -> Vec<String> {
    v.iter().map(|p| p.to_string()).collect()
}

#[test]
fn next_proxy_moves_head_to_tail() {
    let mut cat = vec![rec("a:1"), rec("b:1"), rec("c:1")];
    let p = next_proxy(&mut cat).unwrap();
    assert_eq!(p.to_string(), "a:1");
    assert_eq!(texts(&cat), vec!["b:1", "c:1", "a:1"]);
    let mut empty: Vec<Proxy> = Vec::new();
    assert!(next_proxy(&mut empty).is_none());
}

#[test]
fn rotation_hands_out_each_proxy_once_per_cycle() {
    let mut cat = vec![rec("a:1"), rec("b:1"), rec("c:1")];
    let mut seen = Vec::new();
    for _ in 0..3 {
        seen.push(next_proxy(&mut cat).unwrap().to_string());
    }
    assert_eq!(seen, vec!["a:1", "b:1", "c:1"]);
    assert_eq!(texts(&cat), vec!["a:1", "b:1", "c:1"]);
    assert_eq!(next_proxy(&mut cat).unwrap().to_string(), "a:1");
}

#[test]
fn single_listener_is_reassigned_after_interval() {
    let mut cat = vec![rec("a:1:u:p"), rec("b:1:u:p")];
    let initial = first_assignment(&mut cat).unwrap();
    assert_eq!(initial.to_string(), "a:1:u:p");
    let plan = plan_rotation(&mut cat, &vec![(initial.clone(), 1)], 1);
    assert_eq!(plan.len(), 1);
    let new = plan[0].clone().unwrap();
    assert!(new != initial);
    assert_eq!(new.to_string(), "b:1:u:p");
    let plan = plan_rotation(&mut cat, &vec![(new.clone(), 2)], 1);
    assert_eq!(plan[0].clone().unwrap().to_string(), "a:1:u:p");
}

#[test]
fn fresh_listener_keeps_its_proxy() {
    let mut cat = vec![rec("a:1"), rec("b:1")];
    let plan = plan_rotation(&mut cat, &vec![(rec("a:1"), 0)], 1);
    assert!(plan[0].is_none());
    assert_eq!(texts(&cat), vec!["a:1", "b:1"]);
}

#[test]
fn same_proxy_is_skipped_but_cursor_moves() {
    let mut cat = vec![rec("a:1")];
    let plan = plan_rotation(&mut cat, &vec![(rec("a:1"), 10)], 5);
    assert!(plan[0].is_none());
    assert_eq!(texts(&cat), vec!["a:1"]);
    let mut cat = vec![rec("a:1"), rec("b:1")];
    let plan = plan_rotation(&mut cat, &vec![(rec("a:1"), 10)], 5);
    assert!(plan[0].is_none());
    assert_eq!(texts(&cat), vec!["b:1", "a:1"]);
}

#[test]
fn several_listeners_take_successive_proxies() {
    let mut cat = vec![rec("a:1"), rec("b:1"), rec("c:1")];
    let ls = vec![(rec("x:1"), 9), (rec("y:1"), 1), (rec("z:1"), 9)];
    let plan = plan_rotation(&mut cat, &ls, 5);
    assert_eq!(plan[0].clone().unwrap().to_string(), "a:1");
    assert!(plan[1].is_none());
    assert_eq!(plan[2].clone().unwrap().to_string(), "b:1");
    assert_eq!(texts(&cat), vec!["c:1", "a:1", "b:1"]);
}

#[test]
fn rotation_stops_when_disabled_or_empty() {
    assert!(rotation_active(300, 2));
    assert!(!rotation_active(0, 2));
    assert!(!rotation_active(1, 0));
}

#[test]
fn ports_are_distinct_and_increasing() {
    let mut a = PortAllocator::new(8080);
    let p1 = a.allocate().unwrap();
    let p2 = a.allocate().unwrap();
    let p3 = a.allocate().unwrap();
    assert_eq!((p1, p2, p3), (8080, 8081, 8082));
}

#[test]
fn ports_run_out_at_the_top() {
    let mut a = PortAllocator::new(65534);
    assert_eq!(a.allocate(), Some(65534));
    assert_eq!(a.allocate(), Some(65535));
    assert_eq!(a.allocate(), None);
    assert_eq!(a.allocate(), None);
}

#[test]
fn listener_is_found_by_host() {
    let current = vec![rec("a:1"), rec("b:2:u:p"), rec("b:3")];
    assert_eq!(find_server(&current, &rec("b:9")), Ok(1));
    assert_eq!(
        find_server(&current, &rec("c:1")),
        Err(ProxyError::ServerNotFound("c".to_string()))
    );
}

#[test]
fn config_defaults() {
    let c = Config::default();
    assert_eq!(c.port, 8080);
    assert_eq!(c.proxies_path, "proxies.txt");
    assert_eq!(c.rotate_interval, 300);
}

#[test]
fn lone_listener_gets_every_proxy_once_per_cycle() {
    let mut cat = vec![rec("a:1"), rec("b:1"), rec("c:1")];
    let mut current = first_assignment(&mut cat).unwrap();
    let mut assigned = Vec::new();
    for _ in 0..3 {
        let plan = plan_rotation(&mut cat, &vec![(current.clone(), 5)], 5);
        current = plan[0].clone().unwrap();
        assigned.push(current.to_string());
    }
    assert_eq!(assigned, vec!["b:1", "c:1", "a:1"]);
}
