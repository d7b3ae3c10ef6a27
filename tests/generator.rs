use rsp::generator::{escape_string, Generator};
use rsp::parser::Parser;

fn generate(src: &str) -> rsp::GeneratedCode {
    let parsed = Parser::new().parse(src).unwrap();
    Generator::new().generate_full_source(&parsed)
}

#[test]
fn plain_text_needs_no_package() {
    let g = generate("Hello, World");
    assert!(!g.needs_cargo);
    assert!(g.dependencies.is_empty());
    assert!(g.source.contains("    output.push_str(\"Hello, World\");\n"));
    assert!(!g.source.contains("use rsp_runtime"));
    assert!(!g.source.contains("Request::new()"));
}

#[test]
fn every_source_has_all_exports() {
    for src in ["", "Hello", "<% header(404); %>x", "<%@ dep serde = \"1\" %>"] {
        let g = generate(src);
        for sig in [
            "pub extern \"C\" fn render() -> *mut c_char {",
            "pub extern \"C\" fn free_string(s: *mut c_char) {",
            "pub extern \"C\" fn get_status_code() -> u16 {",
            "pub extern \"C\" fn get_redirect() -> *mut c_char {",
            "pub extern \"C\" fn get_cookies() -> *mut c_char {",
            "pub extern \"C\" fn get_headers() -> *mut c_char {",
        ] {
            assert!(g.source.contains(sig), "{} missing for {:?}", sig, src);
        }
    }
}

#[test]
fn code_lines_are_indented_and_expressions_formatted() {
    let g = generate("<% let x = 2 + 3; %>sum=<%= x %>");
    assert!(g.source.contains("    let x = 2 + 3;\n"));
    assert!(g.source.contains("    output.push_str(\"sum=\");\n"));
    assert!(g.source.contains("    output.push_str(&format!(\"{}\", x));\n"));
    assert!(!g.needs_cargo);
}

#[test]
fn multi_line_code_is_split_into_lines() {
    let g = generate("<% let a = 1;\r\nlet b = 2;\n\nlet c = 3; %>");
    assert!(g.source.contains("    let a = 1;\n    let b = 2;\n    \n    let c = 3;\n"));
}

#[test]
fn response_helpers_bring_in_the_runtime() {
    let g = generate("<% header(404); %>missing");
    assert!(g.needs_cargo);
    assert!(g.source.contains("use rsp_runtime::{Request, Params, Cookies, Headers, escape_html};\n"));
    assert!(g.source.contains("    let req = Request::new();\n    let _ = &req;\n"));
    assert!(g.source.contains("    header(404);\n"));
}

#[test]
fn request_use_brings_in_the_runtime() {
    let g = generate("hi <%= req.get[\"name\"] %>");
    assert!(g.needs_cargo);
    assert!(g.source.contains("use rsp_runtime::{"));
}

#[test]
fn escape_helper_alone_imports_only_it() {
    let g = generate("<%= escape_html(\"<a>\") %>");
    assert!(g.needs_cargo);
    assert!(g.source.contains("use rsp_runtime::escape_html;\n"));
    assert!(!g.source.contains("use rsp_runtime::{"));
}

#[test]
fn directives_add_imports_and_dependencies() {
    let g = generate(
        "<%@ use std::fmt %><%@ use std::io; %><%@ dep serde = \"1\" %><%@ once_cell %><%@ rusqlite %><%@ other %>",
    );
    assert!(g.needs_cargo);
    assert!(g.source.contains("use std::fmt;\n"));
    assert!(g.source.contains("use std::io;\n"));
    assert!(g.source.contains("use once_cell::sync::Lazy;\n"));
    assert_eq!(
        g.dependencies,
        vec![
            "serde = \"1\"".to_string(),
            "once_cell = \"1\"".to_string(),
            "rusqlite = { version = \"0.32\", features = [\"bundled\"] }".to_string(),
        ]
    );
}

#[test]
fn lazy_import_not_repeated() {
    let g = generate("<%@ use once_cell::sync::Lazy %><%! static A: Lazy<u8> = Lazy::new(|| 1); %>");
    assert_eq!(g.source.matches("use once_cell").count(), 1);
    assert!(!g.needs_cargo);
}

#[test]
fn declarations_are_emitted_at_module_level() {
    let g = generate("<%! static mut COUNT: i32 = 0; %>x");
    let decl = g.source.find("static mut COUNT: i32 = 0;\n").unwrap();
    let render = g.source.find("pub extern \"C\" fn render()").unwrap();
    assert!(decl < render);
}

#[test]
fn escape_string_escapes_literal_specials() {
    assert_eq!(escape_string("a\\b\"c\nd\re\tf"), "a\\\\b\\\"c\\nd\\re\\tf");
    assert_eq!(escape_string("plain"), "plain");
}

#[test]
fn directive_prefix_removed_once() {
    let g = generate("<%@ dep dep x %><%@ use use_me %>");
    assert_eq!(g.dependencies, vec!["dep x".to_string()]);
    assert!(g.source.contains("use use_me;\n"));
    let h = generate("<%@ use use foo %>");
    assert!(h.source.contains("use use foo;\n"));
}
