use rsp::context::{clear_context, get_context, set_context, RequestContext};
use rsp::request::{escape_html, url_decode_bytes, urldecode, Request};
use rsp::response::{set_cookie_header, ResponseControl};
use rsp::runtime::{
    clear_request, get_response_control, header, header_url, req, set_request, CleanCookie,
    RuntimeState, SetCookie,
};

fn vars(pairs: &[(&str, &str)]) -> Vec<(String, String)> {
    pairs.iter().map(|(k, v)| (k.to_string(), v.to_string())).collect()
}

#[test]
fn query_parameter_is_read() {
    let r = Request::new(&vars(&[("QUERY_STRING", "name=Ada")]));
    assert_eq!(r.get.str("name"), "Ada");
    assert_eq!(format!("hi {}", r.get.str("name")), "hi Ada");
}

#[test]
fn query_pairs_decode_and_skip_empty_keys() {
    let r = Request::new(&vars(&[("QUERY_STRING", "a=1&=x&b&c=x%20y+z&a=2")]));
    assert_eq!(r.get.get("a"), Some(&"2".to_string()));
    assert_eq!(r.get.str("b"), "");
    assert_eq!(r.get.get("b"), Some(&String::new()));
    assert_eq!(r.get.str("c"), "x y z");
    assert_eq!(r.get.get(""), None);
    assert_eq!(r.get.or("missing", "dflt"), "dflt");
    assert_eq!(r.get.or("a", "dflt"), "2");
}

#[test]
fn body_is_form_and_kept_verbatim() {
    let r = Request::new(&vars(&[("RSP_BODY", "n=5&m=x"), ("REQUEST_METHOD", "POST")]));
    assert_eq!(r.body(), "n=5&m=x");
    assert_eq!(r.post_i64("n"), Some(5));
    assert_eq!(r.post_i64("m"), None);
    assert!(r.is_post());
    assert!(!r.is_get());
}

#[test]
fn defaults_for_method_and_path() {
    let r = Request::new(&Vec::new());
    assert_eq!(r.method(), "GET");
    assert_eq!(r.path(), "/");
    assert!(r.is_get());
    let p = Request::new(&vars(&[("REQUEST_URI", "/a/b.rsp")]));
    assert_eq!(p.path(), "/a/b.rsp");
}

#[test]
fn numbers_from_query() {
    let r = Request::new(&vars(&[("QUERY_STRING", "a=-42&b=%2B7&c=9223372036854775808&d=+1")]));
    assert_eq!(r.get_i64("a"), Some(-42));
    assert_eq!(r.get_i64("b"), Some(7));
    assert_eq!(r.get_i64("c"), None);
    assert_eq!(r.get_i64("d"), None);
    assert_eq!(r.get_i64("zz"), None);
}

#[test]
fn cookies_are_trimmed_and_decoded() {
    let r = Request::new(&vars(&[("HTTP_COOKIE", "sid=abc; theme=dark%21 ;  =x")]));
    assert_eq!(r.cookie.str("sid"), "abc");
    assert_eq!(r.cookie.str("theme"), "dark!");
    assert_eq!(r.cookie.get("Sid"), None);
}

#[test]
fn headers_are_normalised() {
    let r = Request::new(&vars(&[
        ("HTTP_USER_AGENT", "test"),
        ("HTTP_X_FORWARDED_FOR", " 10.0.0.1 , 10.0.0.2"),
        ("CONTENT_TYPE", "text/plain"),
        ("CONTENT_LENGTH", "12"),
        ("PATH", "/bin"),
    ]));
    assert_eq!(r.ua.str("user-agent"), "test");
    assert_eq!(r.ua.str("User-Agent"), "test");
    assert_eq!(r.ua.get("content-type"), Some(&"text/plain".to_string()));
    assert_eq!(r.ua.or("Content-Length", "0"), "12");
    assert_eq!(r.ua.get("path"), None);
    assert_eq!(r.ip(), "10.0.0.1");
}

#[test]
fn ip_falls_back_to_real_ip() {
    let r = Request::new(&vars(&[("HTTP_X_REAL_IP", "192.168.1.9")]));
    assert_eq!(r.ip(), "192.168.1.9");
    let none = Request::new(&Vec::new());
    assert_eq!(none.ip(), "");
}

#[test]
fn ip_keeps_empty_forwarded_entry() {
    let r = Request::new(&vars(&[("HTTP_X_FORWARDED_FOR", " , 10.0.0.2"), ("HTTP_X_REAL_IP", "192.168.1.9")]));
    assert_eq!(r.ip(), "");
    let e = Request::new(&vars(&[("HTTP_X_FORWARDED_FOR", ""), ("HTTP_X_REAL_IP", "192.168.1.9")]));
    assert_eq!(e.ip(), "");
    let f = Request::new(&vars(&[("HTTP_X_FORWARDED_FOR", "10.0.0.1"), ("HTTP_X_REAL_IP", "192.168.1.9")]));
    assert_eq!(f.ip(), "10.0.0.1");
}

#[test]
fn substring_checks_drive_imports() {
    let r = rsp::parser::Parser::new().parse("<%= req.method() %>").unwrap();
    assert!(rsp::Generator::new().generate_full_source(&r).needs_cargo);
    let q = rsp::parser::Parser::new().parse("<%= request %>").unwrap();
    assert!(!rsp::Generator::new().generate_full_source(&q).needs_cargo);
}

#[test]
fn url_decoding() {
    assert_eq!(urldecode("a+b%20c%21"), "a b c!");
    assert_eq!(urldecode("%C3%A9"), "\u{e9}");
    assert_eq!(urldecode("a+b%41%zz%4"), "a bA%zz%4");
    assert_eq!(urldecode("%+A"), "% A");
    assert_eq!(urldecode("100%"), "100%");
    assert_eq!(urldecode("caf\u{e9}+%e2%82%ac"), "caf\u{e9} \u{20ac}");
    assert_eq!(urldecode("%e9"), "\u{fffd}");
}

#[test]
fn url_decoding_bytes() {
    assert_eq!(url_decode_bytes("%C3%A9+x"), vec![0xC3, 0xA9, b' ', b'x']);
    assert_eq!(url_decode_bytes("%e9"), vec![0xE9]);
    assert_eq!(url_decode_bytes("%4"), vec![b'%', b'4']);
}

#[test]
fn response_control_default_is_untouched() {
    let rc = ResponseControl::default();
    assert_eq!(rc.status_code, 200);
    assert_eq!(rc.redirect, None);
    assert!(rc.cookies.is_empty());
    assert!(rc.headers.is_empty());
}

#[test]
fn html_escaping() {
    assert_eq!(escape_html("<a href=\"x\">'&'</a>"), "&lt;a href=&quot;x&quot;&gt;&#39;&amp;&#39;&lt;/a&gt;");
    assert_eq!(escape_html("plain"), "plain");
}

#[test]
fn response_control_starts_untouched() {
    let rc = ResponseControl::new();
    assert_eq!(rc.status_code, 200);
    assert_eq!(rc.redirect, None);
    assert!(rc.cookies.is_empty());
    assert!(rc.headers.is_empty());
    let mut rc = rc;
    rc.add_header("X-A".to_string(), "1".to_string());
    assert_eq!(rc.headers, vec![("X-A".to_string(), "1".to_string())]);
}

#[test]
fn status_override() {
    let mut st = RuntimeState::new();
    header(&mut st, 404);
    assert_eq!(get_response_control(&st).status_code, 404);
}

#[test]
fn redirect_sets_302() {
    let mut st = RuntimeState::new();
    header_url(&mut st, "/login");
    let rc = get_response_control(&st);
    assert_eq!(rc.status_code, 302);
    assert_eq!(rc.redirect, Some("/login".to_string()));
}

#[test]
fn cookies_are_recorded() {
    let mut st = RuntimeState::new();
    SetCookie(&mut st, "sid", "abc", 3600);
    CleanCookie(&mut st, "old");
    assert_eq!(
        get_response_control(&st).cookies,
        vec![
            ("sid".to_string(), "abc".to_string(), 3600),
            ("old".to_string(), String::new(), -1),
        ]
    );
}

#[test]
fn set_request_resets_controls() {
    let mut st = RuntimeState::new();
    header(&mut st, 500);
    set_request(&mut st, Request::new(&vars(&[("QUERY_STRING", "q=1")])));
    assert_eq!(get_response_control(&st).status_code, 200);
    assert_eq!(req(&st).get.str("q"), "1");
    clear_request(&mut st);
    assert_eq!(req(&st).get.str("q"), "");
    assert_eq!(req(&st).method(), "");
}

#[test]
fn cookie_header_lines() {
    assert_eq!(set_cookie_header("sid", "abc", 3600), "sid=abc; Path=/; Max-Age=3600; HttpOnly");
    assert_eq!(set_cookie_header("sid", "abc", 0), "sid=abc; Path=/; Max-Age=0; HttpOnly");
    assert_eq!(set_cookie_header("sid", "abc", -5), set_cookie_header("sid", "", -1));
    assert_eq!(set_cookie_header("sid", "abc", -5), "sid=; Path=/; Max-Age=0; HttpOnly");
}

#[test]
fn context_slot() {
    let mut slot: Option<RequestContext> = None;
    assert!(get_context(&slot).is_none());
    let mut ctx = RequestContext::new();
    ctx.query.push(("a".to_string(), "1".to_string()));
    ctx.query.push(("a".to_string(), "2".to_string()));
    ctx.headers.push(("host".to_string(), "x".to_string()));
    set_context(&mut slot, ctx);
    let got = get_context(&slot).unwrap();
    assert_eq!(got.method(), "GET");
    assert_eq!(got.path(), "/");
    assert_eq!(got.query("a"), Some(&"2".to_string()));
    assert_eq!(got.header("host"), Some(&"x".to_string()));
    assert_eq!(got.header("Host"), None);
    clear_context(&mut slot);
    assert!(slot.is_none());
}

#[test]
fn tables_index_by_key() {
    let r = Request::new(&vars(&[
        ("QUERY_STRING", "name=Ada"),
        ("HTTP_COOKIE", "sid=abc"),
        ("HTTP_USER_AGENT", "agent"),
    ]));
    assert_eq!(&r.get["name"], "Ada");
    assert_eq!(&r.get["none"], "");
    assert_eq!(&r.post["name"], "");
    assert_eq!(&r.cookie["sid"], "abc");
    assert_eq!(&r.ua["User-Agent"], "agent");
}
