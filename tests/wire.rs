use rsp::engine::RenderResult;
use rsp::{parse_cookies, parse_headers};

#[test]
fn cookie_records_are_read() {
    assert_eq!(
        parse_cookies("sid\tabc\t3600\nold\t\t-1"),
        vec![
            ("sid".to_string(), "abc".to_string(), 3600),
            ("old".to_string(), String::new(), -1),
        ]
    );
}

#[test]
fn cookie_lines_with_few_fields_are_skipped_and_bad_ages_are_zero() {
    assert_eq!(
        parse_cookies("a\tb\nc\td\tx\ne\tf\t7\textra"),
        vec![("c".to_string(), "d".to_string(), 0), ("e".to_string(), "f".to_string(), 7)]
    );
    assert!(parse_cookies("").is_empty());
}

#[test]
fn header_records_split_at_first_colon() {
    assert_eq!(
        parse_headers("X-A:1:2\nno colon\nX-B:"),
        vec![
            ("X-A".to_string(), "1:2".to_string()),
            ("X-B".to_string(), String::new()),
        ]
    );
    assert!(parse_headers("").is_empty());
}

#[test]
fn cookie_round_trip_through_page_format() {
    let cookies = vec![
        ("sid".to_string(), "abc".to_string(), 3600i64),
        ("x".to_string(), "".to_string(), i64::MIN),
        ("y".to_string(), "v w".to_string(), i64::MAX),
    ];
    let wire: Vec<String> = cookies
        .iter()
        .map(|(n, v, a)| format!("{}\t{}\t{}", n, v, a))
        .collect();
    assert_eq!(parse_cookies(&wire.join("\n")), cookies);
}

#[test]
fn header_round_trip_through_page_format() {
    let headers = vec![
        ("X-A".to_string(), "a:b".to_string()),
        ("X-B".to_string(), "".to_string()),
    ];
    let wire: Vec<String> = headers.iter().map(|(n, v)| format!("{}:{}", n, v)).collect();
    assert_eq!(parse_headers(&wire.join("\n")), headers);
}

#[test]
fn untouched_page_reads_as_defaults() {
    let r = RenderResult::from_wire("body".to_string(), 200, None, "", "");
    assert_eq!(r.content, "body");
    assert_eq!(r.status_code, 200);
    assert_eq!(r.redirect, None);
    assert!(r.cookies.is_empty());
    assert!(r.headers.is_empty());
    let d = RenderResult::default();
    assert_eq!(d.status_code, 200);
    assert_eq!(d.content, "");
}

#[test]
fn redirect_and_cookie_read_from_wire() {
    let r = RenderResult::from_wire(String::new(), 302, Some("/login".to_string()), "", "");
    assert_eq!(r.status_code, 302);
    assert_eq!(r.redirect, Some("/login".to_string()));
    let e = RenderResult::from_wire("x".to_string(), 200, Some(String::new()), "sid\tabc\t3600", "");
    assert_eq!(e.redirect, None);
    assert_eq!(e.cookies, vec![("sid".to_string(), "abc".to_string(), 3600)]);
}
