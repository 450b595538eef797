use garmata::configuration::Flow;
use garmata::driver::{Execution, Lookup, Step, Timings};
use garmata::http::address::Address;
use garmata::http::response::HttpResponse;
use garmata::GarmataError;

fn pair(k: &str, v: &str) -> (String, String) {
    (k.to_string(), v.to_string())
}

fn timings(dns: u128, connect: u128, tls: u128, sending: u128, waiting: u128, download: u128) -> Timings {
    Timings { dns, connect, tls, sending, waiting, download }
}

fn response(text: &str) -> HttpResponse {
    HttpResponse::parse(text).unwrap()
}

fn begin(scheme: &str, target: &str, flow: &Flow) -> Execution {
    Execution::begin("1.1", scheme, target, flow, "group", "2026-01-02T03:04:05.678Z").unwrap()
}

fn follow(step: Step) -> Execution {
    match step {
        Step::Redirected(next) => next,
        other => panic!("expected a redirect, got {:?}", other),
    }
}

#[test]
fn a_flow_against_an_address_ends_with_the_first_answer() {
    let flow = Flow::new("/x", "GET");
    let e = begin("http", "127.0.0.1:9", &flow);
    assert_eq!(
        e.payload(),
        "GET /x HTTP/1.1\r\nhost: 127.0.0.1:9\r\naccept: */*\r\naccept-encoding: gzip, deflate, br\r\n\r\n"
    );
    let step = e.advance(
        timings(5, 10, 20, 30, 40, 50),
        response("HTTP/1.1 200 OK\r\ncontent-length: 0\r\n\r\n"),
    );
    match step {
        Step::Finished(r) => {
            assert_eq!(r.response_status, "200");
            assert_eq!(r.dns_duration, 0);
            assert_eq!(r.tls_duration, 0);
            assert_eq!(r.redirect_duration, 0);
            assert_eq!(r.connect_duration, 10);
            assert_eq!(r.sending_duration, 30);
            assert_eq!(r.waiting_duration, 40);
            assert_eq!(r.download_duration, 50);
            assert_eq!(r.total_duration, 130);
            assert_eq!(r.group, "group");
            assert_eq!(r.flow, "");
            assert_eq!(r.start_timestamp, "2026-01-02T03:04:05.678Z");
        }
        other => panic!("expected a result, got {:?}", other),
    }
}

#[test]
fn the_total_is_the_sum_of_the_seven_durations() {
    let mut flow = Flow::new("/", "GET");
    flow.max_redirects = 3;
    flow.name = "home".to_string();
    let e = begin("https", "example.com", &flow);
    let e = follow(e.advance(
        timings(1, 2, 3, 4, 5, 6),
        response("HTTP/1.1 302 Found\r\nlocation: /a\r\n\r\n"),
    ));
    let e = follow(e.advance(
        timings(10, 20, 30, 40, 50, 60),
        response("HTTP/1.1 307 Temporary Redirect\r\nlocation: /b\r\n\r\n"),
    ));
    match e.advance(timings(100, 200, 300, 400, 500, 600), response("HTTP/1.1 200 OK\r\n\r\n")) {
        Step::Finished(r) => {
            assert_eq!(r.redirect_duration, 21 + 210);
            assert_eq!(r.dns_duration, 100);
            assert_eq!(r.tls_duration, 300);
            assert_eq!(r.total_duration, 231 + 2100);
            assert_eq!(
                r.total_duration,
                r.dns_duration
                    + r.connect_duration
                    + r.tls_duration
                    + r.redirect_duration
                    + r.sending_duration
                    + r.waiting_duration
                    + r.download_duration
            );
            assert_eq!(r.flow, "home");
        }
        other => panic!("expected a result, got {:?}", other),
    }
}

#[test]
fn a_redirect_is_followed_once() {
    let mut flow = Flow::new("/x", "GET");
    flow.max_redirects = 1;
    let e = begin("http", "127.0.0.1:9", &flow);
    let e = follow(e.advance(
        timings(0, 1, 0, 1, 1, 1),
        response("HTTP/1.1 301 Moved\r\nlocation: /y\r\n\r\n"),
    ));
    assert_eq!(e.redirects(), 1);
    assert_eq!(e.request().url.path, "/y");
    assert!(e.payload().starts_with("GET /y HTTP/1.1\r\nhost: 127.0.0.1:9\r\n"));
    match e.advance(timings(0, 2, 0, 2, 2, 2), response("HTTP/1.1 200 OK\r\n\r\n")) {
        Step::Finished(r) => {
            assert_eq!(r.response_status, "200");
            assert!(r.redirect_duration > 0);
            assert_eq!(r.redirect_duration, 4);
            assert_eq!(r.total_duration, 12);
        }
        other => panic!("expected a result, got {:?}", other),
    }
}

#[test]
fn a_redirect_beyond_the_limit_is_the_result() {
    let flow = Flow::new("/x", "GET");
    let e = begin("http", "example.com", &flow);
    match e.advance(
        timings(1, 1, 1, 1, 1, 1),
        response("HTTP/1.1 301 Moved\r\nlocation: /y\r\n\r\n"),
    ) {
        Step::Finished(r) => {
            assert_eq!(r.response_status, "301");
            assert_eq!(r.redirect_duration, 0);
            assert_eq!(r.total_duration, 5);
        }
        other => panic!("expected a result, got {:?}", other),
    }
}

#[test]
fn a_chain_makes_one_exchange_for_each_answer() {
    let mut flow = Flow::new("/0", "GET");
    flow.max_redirects = 4;
    let mut e = begin("http", "example.com", &flow);
    let mut exchanges = 0;
    let result = loop {
        exchanges += 1;
        let answer = format!("HTTP/1.1 308 Permanent Redirect\r\nlocation: /{}\r\n\r\n", exchanges);
        match e.advance(timings(1, 1, 1, 1, 1, 1), response(&answer)) {
            Step::Redirected(next) => e = next,
            Step::Finished(r) => break r,
            other => panic!("unexpected {:?}", other),
        }
    };
    assert_eq!(exchanges, 5);
    assert_eq!(result.response_status, "308");
    assert_eq!(result.redirect_duration, 4 * 5);
}

#[test]
fn other_statuses_are_not_followed() {
    for status in ["200", "300", "304", "305", "306", "404", "500", "3010", ""] {
        let mut flow = Flow::new("/x", "GET");
        flow.max_redirects = 2;
        let e = begin("http", "example.com", &flow);
        let answer = format!("HTTP/1.1 {} Whatever\r\nlocation: /y\r\n\r\n", status);
        match e.advance(timings(1, 1, 1, 1, 1, 1), response(&answer)) {
            Step::Finished(r) => assert_eq!(r.response_status, status),
            other => panic!("expected a result, got {:?}", other),
        }
    }
}

#[test]
fn see_other_turns_a_post_into_a_get_and_keeps_the_body() {
    let mut flow = Flow::new("/form", "POST");
    flow.max_redirects = 1;
    flow.body = "hello".to_string();
    let e = begin("http", "example.com", &flow);
    assert!(e.payload().starts_with("POST /form HTTP/1.1\r\n"));
    let e = follow(e.advance(
        timings(1, 1, 1, 1, 1, 1),
        response("HTTP/1.1 303 See Other\r\nLocation: /done\r\n\r\n"),
    ));
    let payload = e.payload();
    assert!(payload.starts_with("GET /done HTTP/1.1\r\n"));
    assert!(payload.ends_with("\r\n\r\nhello"));
}

#[test]
fn moved_permanently_turns_the_method_into_get() {
    let mut flow = Flow::new("/form", "put");
    flow.max_redirects = 1;
    let e = begin("http", "example.com", &flow);
    let e = follow(e.advance(
        timings(1, 1, 1, 1, 1, 1),
        response("HTTP/1.1 301 Moved\r\nLocation: /done\r\n\r\n"),
    ));
    assert_eq!(e.request().method, "GET");
}

#[test]
fn other_redirects_keep_the_method() {
    for status in ["302", "307", "308"] {
        let mut flow = Flow::new("/form", "POST");
        flow.max_redirects = 1;
        let e = begin("http", "example.com", &flow);
        let answer = format!("HTTP/1.1 {} Go\r\nlocation: /y\r\n\r\n", status);
        let e = follow(e.advance(timings(1, 1, 1, 1, 1, 1), response(&answer)));
        assert_eq!(e.request().method, "POST");
        assert!(e.payload().starts_with("POST /y HTTP/1.1\r\n"));
    }
}

#[test]
fn a_redirect_to_a_path_keeps_the_headers_of_the_flow() {
    let mut flow = Flow::new("/x", "GET");
    flow.max_redirects = 1;
    flow.headers = vec![pair("X-Trace", "1")];
    let e = begin("http", "example.com:8080", &flow);
    let e = follow(e.advance(
        timings(1, 1, 1, 1, 1, 1),
        response("HTTP/1.1 302 Found\r\nlocation: /y\r\n\r\n"),
    ));
    assert_eq!(
        e.payload(),
        "GET /y HTTP/1.1\r\nhost: example.com:8080\r\naccept: */*\r\naccept-encoding: gzip, deflate, br\r\nx-trace: 1\r\n\r\n"
    );
}

#[test]
fn a_redirect_to_a_whole_url_resets_the_headers() {
    let mut flow = Flow::new("/x", "GET");
    flow.max_redirects = 1;
    flow.headers = vec![pair("X-Trace", "1"), pair("accept", "text/html")];
    let e = begin("http", "example.com", &flow);
    let e = follow(e.advance(
        timings(1, 1, 1, 1, 1, 1),
        response("HTTP/1.1 302 Found\r\nlocation: https://other.org:444/z?k=v\r\n\r\n"),
    ));
    assert_eq!(
        e.payload(),
        "GET /z?k=v HTTP/1.1\r\nhost: other.org:444\r\naccept: */*\r\naccept-encoding: gzip, deflate, br\r\n\r\n"
    );
    let c = e.connection();
    assert_eq!(c.port, 444);
    assert_eq!(c.tls, Some("other.org".to_string()));
}

#[test]
fn cookies_of_a_redirect_go_with_the_next_request() {
    let mut flow = Flow::new("/login", "GET");
    flow.max_redirects = 1;
    let e = begin("https", "api.example.com", &flow);
    let e = follow(e.advance(
        timings(1, 1, 1, 1, 1, 1),
        response(
            "HTTP/1.1 302 Found\r\nSet-Cookie: s=1; Path=/a/\r\nSet-Cookie: t=2; Path=/b\r\nLocation: /a/b\r\n\r\n",
        ),
    ));
    assert_eq!(e.cookiejar().len(), 2);
    assert_eq!(
        e.payload(),
        "GET /a/b HTTP/1.1\r\nhost: api.example.com\r\naccept: */*\r\naccept-encoding: gzip, deflate, br\r\ncookie: s=1\r\n\r\n"
    );
}

#[test]
fn a_cookie_for_a_wider_domain_than_the_host_is_not_stored() {
    let mut flow = Flow::new("/login", "GET");
    flow.max_redirects = 1;
    let e = begin("https", "api.example.com", &flow);
    let e = follow(e.advance(
        timings(1, 1, 1, 1, 1, 1),
        response(
            "HTTP/1.1 302 Found\r\nSet-Cookie: s=1; Domain=example.com; Path=/a/\r\nLocation: /a/b\r\n\r\n",
        ),
    ));
    assert_eq!(e.cookiejar().len(), 0);
    assert!(!e.payload().contains("cookie:"));
}

#[test]
fn cookies_of_the_flow_are_in_the_jar_from_the_start() {
    let mut flow = Flow::new("/a/b", "GET");
    flow.cookies = vec![
        "k=v; Domain=example.com".to_string(),
        "p=q; Path=/zzz".to_string(),
        "x=y; Domain=other.org".to_string(),
    ];
    let e = begin("http", "example.com", &flow);
    assert_eq!(e.cookiejar().len(), 2);
    assert!(e.payload().contains("\r\ncookie: k=v\r\n\r\n"));
}

#[test]
fn a_redirect_without_a_location_is_fatal() {
    let mut flow = Flow::new("/x", "GET");
    flow.max_redirects = 1;
    let e = begin("http", "example.com", &flow);
    match e.advance(timings(1, 1, 1, 1, 1, 1), response("HTTP/1.1 302 Found\r\nx: y\r\n\r\n")) {
        Step::Fatal(err) => assert_eq!(
            err.reason,
            "response of http://example.com/x did not provide the expected location header but returned the status code 302"
        ),
        other => panic!("expected a fatal error, got {:?}", other),
    }
}

#[test]
fn a_redirect_to_what_is_no_url_fails() {
    let mut flow = Flow::new("/x", "GET");
    flow.max_redirects = 1;
    let e = begin("http", "example.com", &flow);
    match e.advance(
        timings(1, 1, 1, 1, 1, 1),
        response("HTTP/1.1 302 Found\r\nlocation: http://\r\n\r\n"),
    ) {
        Step::Failed(err) => assert_eq!(err.reason, "empty host"),
        other => panic!("expected a failure, got {:?}", other),
    }
}

#[test]
fn durations_that_the_machine_cannot_hold_fail() {
    let flow = Flow::new("/x", "GET");
    let e = begin("http", "example.com", &flow);
    match e.advance(timings(0, u128::MAX, 0, 1, 0, 0), response("HTTP/1.1 200 OK\r\n\r\n")) {
        Step::Failed(err) => assert_eq!(err.reason, "overflow when adding durations"),
        other => panic!("expected a failure, got {:?}", other),
    }
}

#[test]
fn a_plan_without_a_url_does_not_begin() {
    let flow = Flow::new("/x", "GET");
    let err = Execution::begin("1.1", "", "example.com", &flow, "g", "t").unwrap_err();
    assert_eq!(err.reason, "relative URL without a base");
    let err = Execution::begin("1.1", "http", ":80", &flow, "g", "t").unwrap_err();
    assert_eq!(err.reason, "empty host");
    let err = Execution::begin("1.1", "file", "", &flow, "g", "t").unwrap_err();
    assert_eq!(err.reason, "the url has no host");
    assert!(Execution::begin("1.1", "foo", "example.com", &flow, "g", "t").is_err());
    assert!(Execution::begin("1.1", "foo", "example.com:7", &flow, "g", "t").is_ok());
}

#[test]
fn a_domain_is_resolved_and_an_address_is_not() {
    let flow = Flow::new("/", "GET");
    let c = begin("http", "example.com", &flow).connection();
    assert!(matches!(c.lookup, Lookup::Resolve(ref name) if name == "example.com"));
    assert_eq!(c.port, 80);
    assert_eq!(c.tls, None);
    assert!(!c.insecure);

    let c = begin("http", "10.0.0.1:8080", &flow).connection();
    assert!(matches!(c.lookup, Lookup::Literal(ref text) if text == "10.0.0.1"));
    assert_eq!(c.port, 8080);

    let c = begin("https", "[::1]", &flow).connection();
    assert!(matches!(c.lookup, Lookup::Literal(ref text) if text == "::1"));
    assert_eq!(c.port, 443);
    assert_eq!(c.tls, Some("[::1]".to_string()));
}

#[test]
fn an_insecure_flow_asks_for_an_unchecked_handshake() {
    let mut flow = Flow::new("/", "GET");
    flow.insecure = true;
    let c = begin("https", "example.com", &flow).connection();
    assert!(c.insecure);
    assert_eq!(c.tls, Some("example.com".to_string()));
}

#[test]
fn without_https_the_handshake_takes_no_time() {
    let flow = Flow::new("/", "GET");
    match begin("http", "example.com", &flow)
        .advance(timings(7, 1, 99, 1, 1, 1), response("HTTP/1.1 200 OK\r\n\r\n"))
    {
        Step::Finished(r) => {
            assert_eq!(r.tls_duration, 0);
            assert_eq!(r.dns_duration, 7);
            assert_eq!(r.total_duration, 11);
        }
        other => panic!("expected a result, got {:?}", other),
    }
}

#[test]
fn for_an_address_the_lookup_takes_no_time() {
    let flow = Flow::new("/", "GET");
    match begin("https", "192.168.1.1", &flow)
        .advance(timings(7, 1, 99, 1, 1, 1), response("HTTP/1.1 200 OK\r\n\r\n"))
    {
        Step::Finished(r) => {
            assert_eq!(r.dns_duration, 0);
            assert_eq!(r.tls_duration, 99);
            assert_eq!(r.total_duration, 103);
        }
        other => panic!("expected a result, got {:?}", other),
    }
}

#[test]
fn checked_total_adds_the_six_phases() {
    assert_eq!(timings(1, 2, 3, 4, 5, 6).checked_total(), Some(21));
    assert_eq!(timings(u128::MAX, 0, 0, 0, 0, 0).checked_total(), Some(u128::MAX));
    assert_eq!(timings(u128::MAX, 0, 0, 0, 0, 1).checked_total(), None);
}

#[test]
fn a_flow_starts_at_a_url() {
    let mut flow = Flow::new("/ignored", "GET");
    flow.name = "f".to_string();
    let url = Address::parse("https://example.com:8443/p?q=1").unwrap();
    let e = Execution::start_at("1.0", url, &flow, "g", "t").unwrap();
    assert_eq!(e.redirects(), 0);
    assert_eq!(
        e.payload(),
        "GET /p?q=1 HTTP/1.0\r\nhost: example.com:8443\r\naccept: */*\r\naccept-encoding: gzip, deflate, br\r\n\r\n"
    );
    let url = Address::parse("mailto:someone@example.com").unwrap();
    assert_eq!(
        Execution::start_at("1.1", url, &flow, "g", "t").unwrap_err().reason,
        "the url has no host"
    );
    let url = Address::parse("foo://example.com/x").unwrap();
    assert_eq!(
        Execution::start_at("1.1", url, &flow, "g", "t").unwrap_err().reason,
        "the url has no port"
    );
}

#[test]
fn the_location_is_followed_only_while_redirects_are_left() {
    let mut flow = Flow::new("/x", "GET");
    flow.max_redirects = 1;
    let e = begin("http", "example.com", &flow);
    assert_eq!(
        e.location_to_follow(&response("HTTP/1.1 302 Found\r\nlocation: /y\r\n\r\n")),
        Some("/y".to_string())
    );
    assert_eq!(e.location_to_follow(&response("HTTP/1.1 200 OK\r\nlocation: /y\r\n\r\n")), None);
    assert_eq!(e.location_to_follow(&response("HTTP/1.1 302 Found\r\n\r\n")), None);
    let e = follow(e.advance(
        timings(1, 1, 1, 1, 1, 1),
        response("HTTP/1.1 302 Found\r\nlocation: /y\r\n\r\n"),
    ));
    assert_eq!(e.location_to_follow(&response("HTTP/1.1 302 Found\r\nlocation: /z\r\n\r\n")), None);
}

#[test]
fn a_location_is_a_whole_url_or_a_path() {
    let flow = Flow::new("/x?keep=1", "GET");
    let e = begin("http", "example.com:81", &flow);
    assert_eq!(e.redirect_target("/y").unwrap().href, "http://example.com:81/y?keep=1");
    assert_eq!(e.redirect_target("y z").unwrap().href, "http://example.com:81/y%20z?keep=1");
    assert_eq!(e.redirect_target("https://other.org/").unwrap().href, "https://other.org/");
    assert_eq!(e.redirect_target("httpx").unwrap_err().reason, "relative URL without a base");
}

#[test]
fn a_redirect_is_followed_to_the_target_given() {
    let mut flow = Flow::new("/x", "GET");
    flow.max_redirects = 1;
    let answer = "HTTP/1.1 302 Found\r\nlocation: /anything\r\n\r\n";
    let target = Address::parse("http://elsewhere.org/t").unwrap();
    let e = follow(begin("http", "example.com", &flow).advance_to(
        timings(1, 1, 1, 1, 1, 1),
        response(answer),
        Ok(target),
    ));
    assert_eq!(e.request().url.href, "http://elsewhere.org/t");
    assert_eq!(e.redirects(), 1);

    match begin("http", "example.com", &flow).advance_to(
        timings(1, 1, 1, 1, 1, 1),
        response(answer),
        Err(GarmataError::new("nowhere")),
    ) {
        Step::Failed(err) => assert_eq!(err.reason, "nowhere"),
        other => panic!("expected a failure, got {:?}", other),
    }

    let target = Address::parse("foo://elsewhere.org/t").unwrap();
    match begin("http", "example.com", &flow).advance_to(
        timings(1, 1, 1, 1, 1, 1),
        response(answer),
        Ok(target),
    ) {
        Step::Failed(err) => assert_eq!(err.reason, "the url has no host or no port"),
        other => panic!("expected a failure, got {:?}", other),
    }

    let target = Address::parse("http://elsewhere.org/t").unwrap();
    match begin("http", "example.com", &flow).advance_to(
        timings(1, 1, 1, 1, 1, 1),
        response("HTTP/1.1 200 OK\r\n\r\n"),
        Ok(target),
    ) {
        Step::Finished(r) => assert_eq!(r.response_status, "200"),
        other => panic!("expected a result, got {:?}", other),
    }
}
