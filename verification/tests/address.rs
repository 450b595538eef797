use garmata::http::address::Address;

#[test]
fn the_parts_of_a_url_are_read_off() {
    let a = Address::parse("http://127.0.0.1:9/x").unwrap();
    assert_eq!(a.href, "http://127.0.0.1:9/x");
    assert_eq!(a.scheme, "http");
    assert_eq!(a.host, Some("127.0.0.1".to_string()));
    assert!(!a.host_is_domain);
    assert_eq!(a.port, Some(9));
    assert_eq!(a.path, "/x");
    assert_eq!(a.query, None);
    assert_eq!(a.port_or_known_default(), Some(9));
    assert!(!a.is_https());
}

#[test]
fn a_domain_is_told_from_an_address() {
    let a = Address::parse("HTTPS://Example.COM/a/b?c=d#e").unwrap();
    assert_eq!(a.href, "https://example.com/a/b?c=d#e");
    assert_eq!(a.scheme, "https");
    assert_eq!(a.host, Some("example.com".to_string()));
    assert!(a.host_is_domain);
    assert_eq!(a.port, None);
    assert_eq!(a.path, "/a/b");
    assert_eq!(a.query, Some("c=d".to_string()));
    assert_eq!(a.port_or_known_default(), Some(443));
    assert!(a.is_https());
}

#[test]
fn an_ipv6_host_keeps_its_brackets() {
    let a = Address::parse("http://[::1]:8080/").unwrap();
    assert_eq!(a.host, Some("[::1]".to_string()));
    assert!(!a.host_is_domain);
    assert_eq!(a.port, Some(8080));
}

#[test]
fn an_empty_path_is_a_slash() {
    let a = Address::parse("http://example.com").unwrap();
    assert_eq!(a.path, "/");
    assert_eq!(a.port_or_known_default(), Some(80));
}

#[test]
fn known_schemes_have_default_ports() {
    assert_eq!(Address::parse("ws://h/").unwrap().port_or_known_default(), Some(80));
    assert_eq!(Address::parse("wss://h/").unwrap().port_or_known_default(), Some(443));
    assert_eq!(Address::parse("ftp://h/").unwrap().port_or_known_default(), Some(21));
    assert_eq!(Address::parse("foo://h/").unwrap().port_or_known_default(), None);
    assert_eq!(Address::parse("foo://h:7/").unwrap().port_or_known_default(), Some(7));
}

#[test]
fn what_is_no_url_is_an_error() {
    assert_eq!(Address::parse("/only/a/path").unwrap_err().reason, "relative URL without a base");
    assert_eq!(Address::parse("http://").unwrap_err().reason, "empty host");
    assert_eq!(Address::parse("http://h:99999/").unwrap_err().reason, "invalid port number");
}

#[test]
fn a_url_may_have_no_host() {
    let a = Address::parse("mailto:someone@example.com").unwrap();
    assert_eq!(a.host, None);
    assert!(!a.host_is_domain);
}

#[test]
fn a_new_path_keeps_the_rest() {
    let a = Address::parse("http://example.com:81/a?q=1").unwrap();
    let b = a.with_path("/y").unwrap();
    assert_eq!(b.href, "http://example.com:81/y?q=1");
    assert_eq!(b.path, "/y");
    assert_eq!(b.query, Some("q=1".to_string()));
    assert_eq!(b.host, Some("example.com".to_string()));
    assert_eq!(b.port, Some(81));
    assert_eq!(b.scheme, "http");
    assert!(b.host_is_domain);
}

#[test]
fn a_new_path_is_escaped() {
    let a = Address::parse("https://example.com/").unwrap();
    assert_eq!(a.with_path("a b").unwrap().path, "/a%20b");
    assert_eq!(a.with_path("/p?x=1").unwrap().path, "/p%3Fx=1");
    assert_eq!(a.with_path("/p?x=1").unwrap().query, None);
}
