use garmata::http::response::{parse_header, HttpResponse};

fn pair(k: &str, v: &str) -> (String, String) {
    (k.to_string(), v.to_string())
}

#[test]
fn the_status_is_the_second_word_of_the_first_line() {
    let r = HttpResponse::parse("HTTP/1.1 200 OK\r\ncontent-length: 0\r\n\r\n").unwrap();
    assert_eq!(r.status, "200");
    assert_eq!(r.headers, vec![pair("content-length", "0")]);
}

#[test]
fn header_names_are_put_in_lower_case_and_values_kept() {
    let r = HttpResponse::parse(
        "HTTP/1.1 301 Moved Permanently\r\nLocation: /Y\r\nSet-Cookie: A=1\r\nSET-COOKIE: B=2\r\n\r\nbody",
    )
    .unwrap();
    assert_eq!(r.status, "301");
    assert_eq!(
        r.headers,
        vec![pair("location", "/Y"), pair("set-cookie", "A=1"), pair("set-cookie", "B=2")]
    );
}

#[test]
fn a_head_of_one_line_has_no_headers() {
    let r = HttpResponse::parse("HTTP/1.0 204 No Content\r\n\r\n").unwrap();
    assert_eq!(r.status, "204");
    assert!(r.headers.is_empty());
}

#[test]
fn the_body_is_not_read() {
    let r = HttpResponse::parse("HTTP/1.1 200 OK\r\na: b\r\n\r\nx: y\r\n\r\nz: w\r\n").unwrap();
    assert_eq!(r.headers, vec![pair("a", "b")]);
}

#[test]
fn a_value_may_hold_a_colon_and_a_space() {
    let r = HttpResponse::parse("HTTP/1.1 200 OK\r\nwarning: a: b: c\r\n\r\n").unwrap();
    assert_eq!(r.headers, vec![pair("warning", "a: b: c")]);
}

#[test]
fn a_line_without_a_colon_and_a_space_is_passed_over() {
    let r = HttpResponse::parse("HTTP/1.1 200 OK\r\nnonsense\r\nx:1\r\nb: 2\r\n\r\n").unwrap();
    assert_eq!(r.headers, vec![pair("b", "2")]);
}

#[test]
fn words_are_separated_by_single_spaces() {
    let r = HttpResponse::parse("HTTP/1.1  200 OK\r\n\r\n").unwrap();
    assert_eq!(r.status, "");
}

#[test]
fn a_text_without_an_empty_line_is_no_response() {
    let e = HttpResponse::parse("HTTP/1.1 200 OK\r\ncontent-length: 0\r\n").unwrap_err();
    assert_eq!(e.reason, "could not parse http response");
    let e = HttpResponse::parse("").unwrap_err();
    assert_eq!(e.reason, "could not parse http response");
    let e = HttpResponse::parse("HTTP/1.1 200 OK\n\n").unwrap_err();
    assert_eq!(e.reason, "could not parse http response");
}

#[test]
fn a_status_line_of_one_word_is_no_response() {
    let e = HttpResponse::parse("garbage\r\na: b\r\n\r\n").unwrap_err();
    assert_eq!(e.reason, "could not parse http response");
    let e = HttpResponse::parse("\r\n\r\n").unwrap_err();
    assert_eq!(e.reason, "could not parse http response");
}

#[test]
fn what_is_written_is_read_back() {
    let status_line = "HTTP/1.1 404 Not Found";
    let fields = vec![pair("Content-Type", "text/html"), pair("X-A", ""), pair("x-a", "again")];
    let mut text = status_line.to_string();
    for (k, v) in &fields {
        text.push_str("\r\n");
        text.push_str(k);
        text.push_str(": ");
        text.push_str(v);
    }
    text.push_str("\r\n\r\n");
    text.push_str("any\r\n\r\nbody: at all");
    let r = HttpResponse::parse(&text).unwrap();
    assert_eq!(r.status, "404");
    assert_eq!(
        r.headers,
        vec![pair("content-type", "text/html"), pair("x-a", ""), pair("x-a", "again")]
    );
}

#[test]
fn header_finds_the_first_field_with_the_name() {
    let r = HttpResponse::parse("HTTP/1.1 302 Found\r\nLocation: /a\r\nlocation: /b\r\n\r\n")
        .unwrap();
    assert_eq!(r.header("location"), Some(&"/a".to_string()));
    assert_eq!(r.header("Location"), None);
    assert_eq!(r.header("set-cookie"), None);
}

#[test]
fn header_values_finds_all_the_fields_with_the_name() {
    let r = HttpResponse::parse(
        "HTTP/1.1 302 Found\r\nSet-Cookie: a=1\r\nx: y\r\nSet-Cookie: b=2\r\n\r\n",
    )
    .unwrap();
    assert_eq!(r.header_values("set-cookie"), vec!["a=1".to_string(), "b=2".to_string()]);
    assert!(r.header_values("location").is_empty());
}

#[test]
fn parse_header_splits_at_the_first_colon_and_space() {
    assert_eq!(parse_header("Key: value"), Some(pair("key", "value")));
    assert_eq!(parse_header("Key: "), Some(pair("key", "")));
    assert_eq!(parse_header(": v"), Some(pair("", "v")));
    assert_eq!(parse_header("Key:value"), None);
    assert_eq!(parse_header(""), None);
    assert_eq!(parse_header("ÄB: c"), Some(pair("äb", "c")));
}

#[test]
fn a_response_is_made_from_a_text() {
    let r = HttpResponse::try_from("HTTP/1.1 201 Created\r\nLocation: /new\r\n\r\n").unwrap();
    assert_eq!(r.status, "201");
    assert_eq!(r.headers, vec![pair("location", "/new")]);
    let e = HttpResponse::try_from("no response").unwrap_err();
    assert_eq!(e.reason, "could not parse http response");
}
