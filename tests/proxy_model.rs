use qproxy::{Proxy, ProxyAuth, ProxyError};

fn authed(ip: &str, port: u16, user: &str, pass: &str) -> Proxy {
    Proxy {
        ip: ip.to_string(),
        port,
        auth: Some(ProxyAuth { user: user.to_string(), pass: pass.to_string() }),
        is_working: false,
        latency: 0,
        used: true,
    }
}

#[test]
fn parse_anonymous_record() {
    let p = Proxy::parse("10.0.0.1:1080").unwrap();
    assert_eq!(p.ip, "10.0.0.1");
    assert_eq!(p.port, 1080);
    assert!(p.auth.is_none());
    assert!(!p.is_working);
    assert_eq!(p.latency, 0);
    assert!(p.used);
}

#[test]
fn parse_authenticated_record() {
    let p = Proxy::parse("1.1.1.1:1080:u:p").unwrap();
    assert!(p == authed("1.1.1.1", 1080, "u", "p"));
}

#[test]
fn parse_three_fields_gives_empty_password() {
    let p = Proxy::parse("host:9:alice").unwrap();
    let a = p.auth.unwrap();
    assert_eq!(a.user, "alice");
    assert_eq!(a.pass, "");
}

#[test]
fn parse_ignores_fields_after_the_password() {
    let p = Proxy::parse("h:1:u:p:extra").unwrap();
    assert!(p == authed("h", 1, "u", "p"));
}

#[test]
fn parse_rejects_single_field() {
    assert_eq!(Proxy::parse("localhost"), Err(ProxyError::InvalidFormat));
    assert_eq!(Proxy::parse(""), Err(ProxyError::InvalidFormat));
}

#[test]
fn parse_rejects_bad_port() {
    assert_eq!(Proxy::parse("h:65536"), Err(ProxyError::InvalidFormat));
    assert_eq!(Proxy::parse("h:"), Err(ProxyError::InvalidFormat));
    assert_eq!(Proxy::parse("h:80a"), Err(ProxyError::InvalidFormat));
    assert_eq!(Proxy::parse("h:-1"), Err(ProxyError::InvalidFormat));
    assert_eq!(Proxy::parse("h:+"), Err(ProxyError::InvalidFormat));
}

#[test]
fn parse_port_edges() {
    assert_eq!(Proxy::parse("h:65535").unwrap().port, 65535);
    assert_eq!(Proxy::parse("h:0").unwrap().port, 0);
    assert_eq!(Proxy::parse("h:+80").unwrap().port, 80);
    assert_eq!(Proxy::parse("h:00080").unwrap().port, 80);
}

#[test]
fn format_then_parse_round_trip() {
    for s in ["1.1.1.1:1080:u:p", "example.org:8080", "h:0", "a:65535:user:secret", ":1::"] {
        let p = Proxy::parse(s).unwrap();
        assert_eq!(p.to_string(), s);
    }
}

#[test]
fn non_canonical_text_is_normalised() {
    assert_eq!(Proxy::parse("h:+007").unwrap().to_string(), "h:7");
    assert_eq!(Proxy::parse("h:7:u").unwrap().to_string(), "h:7:u:");
}

#[test]
fn record_to_text_and_back() {
    let p = authed("2.2.2.2", 3128, "name", "pw");
    let text = p.to_string();
    assert_eq!(text, "2.2.2.2:3128:name:pw");
    assert!(Proxy::parse(&text).unwrap() == p);
}

#[test]
fn equality_is_over_all_fields() {
    let a = authed("h", 1, "u", "p");
    let mut b = a.clone();
    assert!(a == b);
    b.latency = 5;
    assert!(a != b);
    let mut c = a.clone();
    c.auth = None;
    assert!(a != c);
}

#[test]
fn from_str_matches_parse() {
    let p: Proxy = "h:1:u:p".parse().unwrap();
    assert!(p == authed("h", 1, "u", "p"));
    assert!("nope".parse::<Proxy>().is_err());
}

#[test]
fn from_str_forms_and_errors() {
    let anon: Proxy = "example.org:8080".parse().unwrap();
    assert_eq!(anon.ip, "example.org");
    assert_eq!(anon.port, 8080);
    assert!(anon.auth.is_none());
    assert_eq!("h:abc:u:p".parse::<Proxy>(), Err(ProxyError::InvalidFormat));
    assert_eq!("h:70000".parse::<Proxy>(), Err(ProxyError::InvalidFormat));
    assert_eq!("nocolon".parse::<Proxy>(), Err(ProxyError::InvalidFormat));
    let r = authed("2.2.2.2", 3128, "name", "pw");
    let back: Proxy = r.to_string().parse().unwrap();
    assert!(back == r);
}
