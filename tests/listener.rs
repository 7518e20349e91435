use qproxy::listener::{AcceptAction, ListenerState};
use qproxy::Proxy;

fn rec(s: &str) -> Proxy {
    Proxy::parse(s).unwrap()
}

#[test]
fn new_listener_dispatches_to_its_proxy() {
    let s = ListenerState::new(rec("a:1:u:p"), 1_000);
    match s.on_accept() {
        AcceptAction::Dispatch(p) => assert_eq!(p.to_string(), "a:1:u:p"),
        AcceptAction::Exit => panic!("a fresh listener must dispatch"),
    }
    assert!(s.get_proxy() == rec("a:1:u:p"));
}

#[test]
fn swap_changes_the_upstream_and_restarts_the_clock() {
    let mut s = ListenerState::new(rec("a:1"), 1_000);
    assert_eq!(s.get_duration(3_500), 2_500);
    assert_eq!(s.held_secs(3_500), 2);
    s.set_proxy(rec("b:2"), 4_000);
    assert_eq!(s.get_proxy().to_string(), "b:2");
    assert_eq!(s.get_duration(4_250), 250);
    assert_eq!(s.held_secs(4_250), 0);
    assert_eq!(s.get_duration(3_000), 0);
}

#[test]
fn stopped_listener_dispatches_nothing() {
    let mut s = ListenerState::new(rec("a:1"), 0);
    s.stop();
    assert!(matches!(s.on_accept(), AcceptAction::Exit));
    s.set_proxy(rec("b:2"), 10);
    assert!(matches!(s.on_accept(), AcceptAction::Exit));
    assert_eq!(s.get_proxy().to_string(), "b:2");
}
