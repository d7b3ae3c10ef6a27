use rsp::engine::include_missing;
use rsp::serve::{header_env_key, is_page, page_path};

#[test]
fn page_paths() {
    assert_eq!(page_path("/", "index.rsp"), "index.rsp");
    assert_eq!(page_path("", "index.rsp"), "index.rsp");
    assert_eq!(page_path("//docs/", "index.rsp"), "docs/index.rsp");
    assert_eq!(page_path("/a/b.rsp", "index.rsp"), "a/b.rsp");
}

#[test]
fn page_suffix() {
    assert!(is_page("a/b.rsp"));
    assert!(is_page(".rsp"));
    assert!(!is_page("rsp"));
    assert!(!is_page("a.rs"));
    assert!(!is_page("a.rspx"));
}

#[test]
fn header_environment_keys() {
    assert_eq!(header_env_key("user-agent"), "HTTP_USER_AGENT");
    assert_eq!(header_env_key("x-forwarded-for"), "HTTP_X_FORWARDED_FOR");
}

#[test]
fn missing_include_is_a_comment() {
    assert_eq!(include_missing("part.rsp"), "<!-- Include error: part.rsp not found -->");
}
