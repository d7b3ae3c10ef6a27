//! Tokens to one complete source file for a dynamic library, plus what its
//! build needs.
//!
//! The file holds the response-control cells and helpers, the imports that
//! the template asked for or uses, its declarations, and a `render` function
//! that replays the tokens in order, followed by the getters of the C ABI.

use vstd::prelude::*;
use crate::parser::{strings_view, tokens_view, ParsedTemplate, Token, TokenView};
use crate::text::{
    chars_of, contains_str, has_prefix, occurs_at, occurs_in, push_char, starts_with_str, trim_str, trimmed,
};

verus! {

pub const SOURCE_HEAD: &'static str = r#"#![allow(unused)]
use std::os::raw::c_char;
use std::ffi::CString;
use std::cell::RefCell;

thread_local! {
    static STATUS_CODE: RefCell<u16> = RefCell::new(200);
    static REDIRECT: RefCell<Option<String>> = RefCell::new(None);
    static COOKIES: RefCell<Vec<(String, String, i64)>> = RefCell::new(Vec::new());
    static HEADERS: RefCell<Vec<(String, String)>> = RefCell::new(Vec::new());
}

fn header(code: u16) {
    STATUS_CODE.with(|c| *c.borrow_mut() = code);
}

fn header_url(url: &str) {
    REDIRECT.with(|r| *r.borrow_mut() = Some(url.to_string()));
    STATUS_CODE.with(|c| *c.borrow_mut() = 302);
}

fn SetCookie(name: &str, value: &str, max_age: i64) {
    COOKIES.with(|c| c.borrow_mut().push((name.to_string(), value.to_string(), max_age)));
}

fn CleanCookie(name: &str) {
    COOKIES.with(|c| c.borrow_mut().push((name.to_string(), "".to_string(), -1)));
}

"#;

pub const EXPORT_RENDER: &'static str = r#"pub extern "C" fn render() -> *mut c_char {
"#;

pub const RENDER_START: &'static str = r#"    let mut output = String::new();
"#;

pub const RENDER_END: &'static str = r#"
    let c_string = CString::new(output).unwrap();
    c_string.into_raw()
}

#[no_mangle]
"#;

pub const EXPORT_FREE_STRING: &'static str = r#"pub extern "C" fn free_string(s: *mut c_char) {
"#;

pub const FREE_STRING_BODY: &'static str = r#"    if s.is_null() { return; }
    unsafe { drop(CString::from_raw(s)); }
}

#[no_mangle]
"#;

pub const EXPORT_GET_STATUS_CODE: &'static str = r#"pub extern "C" fn get_status_code() -> u16 {
"#;

pub const GET_STATUS_CODE_BODY: &'static str = r#"    STATUS_CODE.with(|c| *c.borrow())
}

#[no_mangle]
"#;

pub const EXPORT_GET_REDIRECT: &'static str = r#"pub extern "C" fn get_redirect() -> *mut c_char {
"#;

pub const GET_REDIRECT_BODY: &'static str = r#"    let redirect = REDIRECT.with(|r| r.borrow().clone());
    match redirect {
        Some(url) => {
            let c_string = CString::new(url).unwrap();
            c_string.into_raw()
        }
        None => std::ptr::null_mut(),
    }
}

#[no_mangle]
"#;

pub const EXPORT_GET_COOKIES: &'static str = r#"pub extern "C" fn get_cookies() -> *mut c_char {
"#;

pub const GET_COOKIES_BODY: &'static str = r#"    let cookies: String = COOKIES.with(|c| {
        c.borrow().iter()
            .map(|(name, value, max_age)| format!("{}\t{}\t{}", name, value, max_age))
            .collect::<Vec<_>>()
            .join("\n")
    });
    let c_string = CString::new(cookies).unwrap();
    c_string.into_raw()
}

#[no_mangle]
"#;

pub const EXPORT_GET_HEADERS: &'static str = r#"pub extern "C" fn get_headers() -> *mut c_char {
"#;

pub const GET_HEADERS_BODY: &'static str = r#"    let headers: String = HEADERS.with(|h| {
        h.borrow().iter()
            .map(|(name, value)| format!("{}:{}", name, value))
            .collect::<Vec<_>>()
            .join("\n")
    });
    let c_string = CString::new(headers).unwrap();
    c_string.into_raw()
}
"#;

pub const NO_MANGLE: &'static str = "\n\n#[no_mangle]\n";

pub const RUNTIME_IMPORTS: &'static str = "use rsp_runtime::{Request, Params, Cookies, Headers, escape_html};\n";

pub const ESCAPE_IMPORT: &'static str = "use rsp_runtime::escape_html;\n";

pub const LAZY_IMPORT: &'static str = "use once_cell::sync::Lazy;\n";

pub const REQUEST_INIT: &'static str = "    let req = Request::new();\n    let _ = &req;\n";

pub const ONCE_CELL_DEP: &'static str = "once_cell = \"1\"";

pub const RUSQLITE_DEP: &'static str = "rusqlite = { version = \"0.32\", features = [\"bundled\"] }";

pub const INDENT: &'static str = "    ";

pub const PUSH_TEXT_OPEN: &'static str = "    output.push_str(\"";

pub const PUSH_TEXT_CLOSE: &'static str = "\");\n";

pub const PUSH_EXPR_OPEN: &'static str = "    output.push_str(&format!(\"{}\", ";

pub const PUSH_EXPR_CLOSE: &'static str = "));\n";

/// The source text after the render body: the end of `render` and the five
/// other exports.
pub open spec fn source_tail() -> Seq<char> {
    RENDER_END@ + EXPORT_FREE_STRING@ + FREE_STRING_BODY@ + EXPORT_GET_STATUS_CODE@
        + GET_STATUS_CODE_BODY@ + EXPORT_GET_REDIRECT@ + GET_REDIRECT_BODY@ + EXPORT_GET_COOKIES@
        + GET_COOKIES_BODY@ + EXPORT_GET_HEADERS@ + GET_HEADERS_BODY@
}

#[derive(Debug, Clone, Default)]
pub struct GeneratedCode {
    pub source: String,
    pub needs_cargo: bool,
    pub dependencies: Vec<String>,
}

/// One character of text as it must appear inside a string literal.
pub open spec fn escape_char(c: char) -> Seq<char> {
    if c == '\\' {
        seq!['\\', '\\']
    } else if c == '"' {
        seq!['\\', '"']
    } else if c == '\n' {
        seq!['\\', 'n']
    } else if c == '\r' {
        seq!['\\', 'r']
    } else if c == '\t' {
        seq!['\\', 't']
    } else {
        seq![c]
    }
}

/// `s` with backslash, double quote, CR, LF and TAB escaped.
pub open spec fn escaped_literal(s: Seq<char>) -> Seq<char>
    decreases s.len(),
{
    if s.len() == 0 {
        Seq::empty()
    } else {
        escaped_literal(s.drop_last()) + escape_char(s.last())
    }
}

/// `line` without one trailing carriage return.
pub open spec fn strip_cr(line: Seq<char>) -> Seq<char> {
    if line.len() > 0 && line.last() == '\r' {
        line.drop_last()
    } else {
        line
    }
}

/// The lines of a code block from `i` on, each indented one level, where
/// `line` is the part of the current line before `i`. Lines end at `\n`
/// (a `\r` before it is dropped); a last line with no `\n` is kept when it is
/// not empty.
pub open spec fn code_lines_from(c: Seq<char>, i: int, line: Seq<char>) -> Seq<char>
    decreases c.len() - i,
{
    if i < 0 || i >= c.len() {
        if line.len() > 0 {
            INDENT@ + line + seq!['\n']
        } else {
            Seq::empty()
        }
    } else if c[i] == '\n' {
        INDENT@ + strip_cr(line) + seq!['\n'] + code_lines_from(c, i + 1, Seq::empty())
    } else {
        code_lines_from(c, i + 1, line.push(c[i]))
    }
}

pub open spec fn code_lines(c: Seq<char>) -> Seq<char> {
    code_lines_from(c, 0, Seq::empty())
}

/// What `render` holds for one token.
pub open spec fn token_render(t: TokenView) -> Seq<char> {
    match t {
        TokenView::Text(x) => PUSH_TEXT_OPEN@ + escaped_literal(x) + PUSH_TEXT_CLOSE@,
        TokenView::Expression(e) => PUSH_EXPR_OPEN@ + e + PUSH_EXPR_CLOSE@,
        TokenView::Code(c) => code_lines(c),
        _ => Seq::empty(),
    }
}

pub open spec fn render_of(ts: Seq<TokenView>) -> Seq<char>
    decreases ts.len(),
{
    if ts.len() == 0 {
        Seq::empty()
    } else {
        render_of(ts.drop_last()) + token_render(ts.last())
    }
}

pub open spec fn static_of(decls: Seq<Seq<char>>) -> Seq<char>
    decreases decls.len(),
{
    if decls.len() == 0 {
        Seq::empty()
    } else {
        static_of(decls.drop_last()) + decls.last() + seq!['\n']
    }
}

pub open spec fn is_use_directive(d: Seq<char>) -> bool {
    has_prefix(trimmed(d), "use "@)
}

pub open spec fn is_dep_directive(d: Seq<char>) -> bool {
    !is_use_directive(d) && has_prefix(trimmed(d), "dep "@)
}

pub open spec fn is_once_cell_directive(d: Seq<char>) -> bool {
    !is_use_directive(d) && !is_dep_directive(d) && has_prefix(trimmed(d), "once_cell"@)
}

pub open spec fn is_rusqlite_directive(d: Seq<char>) -> bool {
    !is_use_directive(d) && !is_dep_directive(d) && !is_once_cell_directive(d) && has_prefix(
        trimmed(d),
        "rusqlite"@,
    )
}

/// The import line a directive adds.
pub open spec fn directive_import(d: Seq<char>) -> Seq<char> {
    let t = trimmed(d);
    if is_use_directive(d) {
        let u = trimmed(t.subrange(4, t.len() as int));
        if u.len() > 0 && u.last() == ';' {
            t + seq!['\n']
        } else {
            "use "@ + u + seq![';', '\n']
        }
    } else {
        Seq::empty()
    }
}

/// The dependency a directive adds, if any.
pub open spec fn directive_dep(d: Seq<char>) -> Option<Seq<char>> {
    if is_dep_directive(d) {
        Some(trimmed(trimmed(d).subrange(4, trimmed(d).len() as int)))
    } else if is_once_cell_directive(d) {
        Some(ONCE_CELL_DEP@)
    } else if is_rusqlite_directive(d) {
        Some(RUSQLITE_DEP@)
    } else {
        None
    }
}

pub open spec fn imports_of(ts: Seq<TokenView>) -> Seq<char>
    decreases ts.len(),
{
    if ts.len() == 0 {
        Seq::empty()
    } else {
        imports_of(ts.drop_last()) + match ts.last() {
            TokenView::Directive(d) => directive_import(d),
            _ => Seq::empty(),
        }
    }
}

pub open spec fn deps_of(ts: Seq<TokenView>) -> Seq<Seq<char>>
    decreases ts.len(),
{
    if ts.len() == 0 {
        Seq::empty()
    } else {
        let rest = deps_of(ts.drop_last());
        match ts.last() {
            TokenView::Directive(d) => match directive_dep(d) {
                Some(x) => rest.push(x),
                None => rest,
            },
            _ => rest,
        }
    }
}

pub open spec fn mentions_request(p: Seq<char>) -> bool {
    occurs_in(p, "req()"@) || occurs_in(p, "req."@)
}

pub open spec fn mentions_escape(p: Seq<char>) -> bool {
    occurs_in(p, "escape_html"@)
}

pub open spec fn mentions_control(p: Seq<char>) -> bool {
    ||| occurs_in(p, "header("@)
    ||| occurs_in(p, "header_url("@)
    ||| occurs_in(p, "SetCookie("@)
    ||| occurs_in(p, "CleanCookie("@)
}

pub open spec fn mentions_lazy(p: Seq<char>) -> bool {
    occurs_in(p, "Lazy<"@) || occurs_in(p, "once_cell"@)
}

/// The payload of a code or expression token.
pub open spec fn code_payload(t: TokenView) -> Option<Seq<char>> {
    match t {
        TokenView::Code(c) => Some(c),
        TokenView::Expression(e) => Some(e),
        _ => None,
    }
}

pub open spec fn token_uses_request(t: TokenView) -> bool {
    code_payload(t) matches Some(p) && mentions_request(p)
}

pub open spec fn token_uses_control(t: TokenView) -> bool {
    code_payload(t) matches Some(p) && mentions_control(p)
}

pub open spec fn token_uses_escape(t: TokenView) -> bool {
    code_payload(t) matches Some(p) && mentions_escape(p)
}

pub open spec fn token_adds_dep(t: TokenView) -> bool {
    t matches TokenView::Directive(d) && directive_dep(d) is Some
}

pub open spec fn token_enables_lazy(t: TokenView) -> bool {
    t matches TokenView::Directive(d) && is_once_cell_directive(d)
}

/// Template code reaches the request object.
pub open spec fn uses_request(ts: Seq<TokenView>) -> bool {
    exists|i: int| 0 <= i < ts.len() && token_uses_request(#[trigger] ts[i])
}

/// Template code calls one of the response-control helpers.
pub open spec fn uses_control(ts: Seq<TokenView>) -> bool {
    exists|i: int| 0 <= i < ts.len() && token_uses_control(#[trigger] ts[i])
}

/// A declaration or template code names the HTML-escape helper.
pub open spec fn uses_escape(ts: Seq<TokenView>, decls: Seq<Seq<char>>) -> bool {
    ||| exists|i: int| 0 <= i < decls.len() && mentions_escape(#[trigger] decls[i])
    ||| exists|i: int| 0 <= i < ts.len() && token_uses_escape(#[trigger] ts[i])
}

/// A declaration mentions lazy initialisation or a directive asks for it.
pub open spec fn uses_lazy(ts: Seq<TokenView>, decls: Seq<Seq<char>>) -> bool {
    ||| exists|i: int| 0 <= i < decls.len() && mentions_lazy(#[trigger] decls[i])
    ||| exists|i: int| 0 <= i < ts.len() && token_enables_lazy(#[trigger] ts[i])
}

/// A directive added a dependency.
pub open spec fn adds_dependency(ts: Seq<TokenView>) -> bool {
    exists|i: int| 0 <= i < ts.len() && token_adds_dep(#[trigger] ts[i])
}

/// The runtime is imported: the request or the response helpers are used.
pub open spec fn needs_runtime(ts: Seq<TokenView>) -> bool {
    uses_request(ts) || uses_control(ts)
}

/// The whole import section.
pub open spec fn imports_section(ts: Seq<TokenView>, decls: Seq<Seq<char>>) -> Seq<char> {
    let base = imports_of(ts);
    let with_runtime = if needs_runtime(ts) {
        RUNTIME_IMPORTS@ + base
    } else if uses_escape(ts, decls) {
        ESCAPE_IMPORT@ + base
    } else {
        base
    };
    if uses_lazy(ts, decls) && !occurs_in(with_runtime, "use once_cell"@) {
        LAZY_IMPORT@ + with_runtime
    } else {
        with_runtime
    }
}

/// The generated source file.
pub open spec fn source_of(ts: Seq<TokenView>, decls: Seq<Seq<char>>) -> Seq<char> {
    SOURCE_HEAD@ + imports_section(ts, decls) + seq!['\n'] + static_of(decls) + NO_MANGLE@
        + EXPORT_RENDER@ + RENDER_START@ + (if needs_runtime(ts) {
        REQUEST_INIT@
    } else {
        Seq::empty()
    }) + INDENT@ + render_of(ts) + source_tail()
}

/// A package build is needed: a dependency was named or the runtime is used.
pub open spec fn needs_package(ts: Seq<TokenView>, decls: Seq<Seq<char>>) -> bool {
    adds_dependency(ts) || needs_runtime(ts) || uses_escape(ts, decls)
}

/// `s` escaped for use inside a double-quoted string literal.
pub fn escape_string(s: &str) -> (r: String)
    ensures
        r@ == escaped_literal(s@),
{
    let cs = chars_of(s);
    let mut r = String::new();
    let mut i: usize = 0;
    while i < cs.len()
        invariant
            cs@ == s@,
            i <= cs.len(),
            r@ == escaped_literal(s@.take(i as int)),
        decreases cs.len() - i,
    {
        let c = cs[i];
        if c == '\\' {
            r.append("\\\\");
        } else if c == '"' {
            r.append("\\\"");
        } else if c == '\n' {
            r.append("\\n");
        } else if c == '\r' {
            r.append("\\r");
        } else if c == '\t' {
            r.append("\\t");
        } else {
            push_char(&mut r, c);
        }
        proof {
            reveal_strlit("\\\\");
            reveal_strlit("\\\"");
            reveal_strlit("\\n");
            reveal_strlit("\\r");
            reveal_strlit("\\t");
            assert(s@.take(i + 1).drop_last() =~= s@.take(i as int));
            assert(r@ =~= escaped_literal(s@.take(i as int)) + escape_char(c));
        }
        i = i + 1;
    }
    assert(s@.take(cs.len() as int) =~= s@);
    r
}

/// Appends the lines of the code block `c`, each indented one level.
fn push_code_lines(out: &mut String, c: &str)
    ensures
        final(out)@ == old(out)@ + code_lines(c@),
{
    let cs = chars_of(c);
    let ghost c0 = old(out)@;
    let mut line = String::new();
    let mut i: usize = 0;
    while i < cs.len()
        invariant
            cs@ == c@,
            i <= cs.len(),
            out@ + code_lines_from(c@, i as int, line@) == c0 + code_lines(c@),
        decreases cs.len() - i,
    {
        if cs[i] == '\n' {
            let ghost l0 = line@;
            let ghost o0 = out@;
            out.append(INDENT);
            let lcs = chars_of(line.as_str());
            let mut k: usize = lcs.len();
            if k > 0 && lcs[k - 1] == '\r' {
                k = k - 1;
            }
            let kept = line.as_str().substring_char(0, k);
            assert(kept@ =~= strip_cr(l0));
            out.append(kept);
            push_char(out, '\n');
            line = String::new();
            assert(out@ + code_lines_from(c@, i + 1, line@) =~= (o0 + INDENT@ + strip_cr(l0)
                + seq!['\n']) + code_lines_from(c@, i + 1, Seq::empty()));
        } else {
            push_char(&mut line, cs[i]);
        }
        i = i + 1;
    }
    if !line.as_str().is_empty() {
        out.append(INDENT);
        out.append(line.as_str());
        push_char(out, '\n');
    } else {
        assert(code_lines_from(c@, i as int, line@) =~= Seq::<char>::empty());
        assert(out@ + Seq::<char>::empty() =~= out@);
    }
}

/// What a directive adds to the imports.
fn push_directive_import(imports: &mut String, d: &str)
    ensures
        final(imports)@ == old(imports)@ + directive_import(d@),
{
    let t = trim_str(d);
    if starts_with_str(t, "use ") {
        proof {
            reveal_strlit("use ");
        }
        let u = trim_str(t.substring_char(4, t.unicode_len()));
        let n = u.unicode_len();
        if n > 0 && u.get_char(n - 1) == ';' {
            imports.append(t);
            push_char(imports, '\n');
        } else {
            imports.append("use ");
            imports.append(u);
            push_char(imports, ';');
            push_char(imports, '\n');
            assert(imports@ =~= old(imports)@ + ("use "@ + u@ + seq![';', '\n']));
        }
    } else {
        assert(old(imports)@ + Seq::<char>::empty() =~= old(imports)@);
    }
}

/// The dependency a directive adds, if any.
fn directive_dependency(d: &str) -> (r: Option<String>)
    ensures
        r matches Some(x) ==> directive_dep(d@) == Some(x@),
        r is None ==> directive_dep(d@) is None,
{
    let t = trim_str(d);
    if starts_with_str(t, "use ") {
        None
    } else if starts_with_str(t, "dep ") {
        proof {
            reveal_strlit("dep ");
        }
        Some(String::from_str(trim_str(t.substring_char(4, t.unicode_len()))))
    } else if starts_with_str(t, "once_cell") {
        Some(String::from_str(ONCE_CELL_DEP))
    } else if starts_with_str(t, "rusqlite") {
        Some(String::from_str(RUSQLITE_DEP))
    } else {
        None
    }
}

/// Appends what `render` holds for one token.
fn push_token_render(out: &mut String, t: &Token)
    ensures
        final(out)@ == old(out)@ + token_render(t@),
{
    match t {
        Token::Text(x) => {
            out.append(PUSH_TEXT_OPEN);
            let e = escape_string(x.as_str());
            out.append(e.as_str());
            out.append(PUSH_TEXT_CLOSE);
            assert(out@ =~= old(out)@ + token_render(t@));
        },
        Token::Expression(e) => {
            out.append(PUSH_EXPR_OPEN);
            out.append(e.as_str());
            out.append(PUSH_EXPR_CLOSE);
            assert(out@ =~= old(out)@ + token_render(t@));
        },
        Token::Code(c) => {
            push_code_lines(out, c.as_str());
        },
        _ => {
            assert(out@ =~= old(out)@ + token_render(t@));
        },
    }
}

/// What one pass over the tokens collects.
struct TokenScan {
    imports: String,
    render_code: String,
    dependencies: Vec<String>,
    has_request: bool,
    has_control: bool,
    escape_code: bool,
    lazy_directive: bool,
    dep_added: bool,
}

/// `st` describes the first `k` tokens of `ts`.
spec fn scan_describes(st: TokenScan, ts: Seq<TokenView>, k: int) -> bool {
    &&& st.imports@ == imports_of(ts.take(k))
    &&& st.render_code@ == render_of(ts.take(k))
    &&& strings_view(st.dependencies@) == deps_of(ts.take(k))
    &&& st.has_request == (exists|j: int| 0 <= j < k && token_uses_request(#[trigger] ts[j]))
    &&& st.has_control == (exists|j: int| 0 <= j < k && token_uses_control(#[trigger] ts[j]))
    &&& st.escape_code == (exists|j: int| 0 <= j < k && token_uses_escape(#[trigger] ts[j]))
    &&& st.lazy_directive == (exists|j: int| 0 <= j < k && token_enables_lazy(#[trigger] ts[j]))
    &&& st.dep_added == (exists|j: int| 0 <= j < k && token_adds_dep(#[trigger] ts[j]))
}

/// Takes one more token into the scan.
fn scan_token(st: &mut TokenScan, t: &Token)
    ensures
        final(st).imports@ == old(st).imports@ + match t@ {
            TokenView::Directive(d) => directive_import(d),
            _ => Seq::empty(),
        },
        final(st).render_code@ == old(st).render_code@ + token_render(t@),
        strings_view(final(st).dependencies@) == match t@ {
            TokenView::Directive(d) => match directive_dep(d) {
                Some(x) => strings_view(old(st).dependencies@).push(x),
                None => strings_view(old(st).dependencies@),
            },
            _ => strings_view(old(st).dependencies@),
        },
        final(st).has_request == (old(st).has_request || token_uses_request(t@)),
        final(st).has_control == (old(st).has_control || token_uses_control(t@)),
        final(st).escape_code == (old(st).escape_code || token_uses_escape(t@)),
        final(st).lazy_directive == (old(st).lazy_directive || token_enables_lazy(t@)),
        final(st).dep_added == (old(st).dep_added || token_adds_dep(t@)),
{
    let ghost deps0 = strings_view(st.dependencies@);
    match t {
        Token::Expression(p) | Token::Code(p) => {
            let p = p.as_str();
            let req_here = contains_str(p, "req()") || contains_str(p, "req.");
            let escape_here = contains_str(p, "escape_html");
            let control_here = contains_str(p, "header(") || contains_str(p, "header_url(")
                || contains_str(p, "SetCookie(") || contains_str(p, "CleanCookie(");
            st.has_request = st.has_request || req_here;
            st.has_control = st.has_control || control_here;
            st.escape_code = st.escape_code || escape_here;
            assert(st.imports@ =~= old(st).imports@ + Seq::<char>::empty());
        },
        Token::Directive(d) => {
            let d = d.as_str();
            push_directive_import(&mut st.imports, d);
            let lazy_here = starts_with_str(trim_str(d), "once_cell") && !starts_with_str(
                trim_str(d),
                "use ",
            ) && !starts_with_str(trim_str(d), "dep ");
            st.lazy_directive = st.lazy_directive || lazy_here;
            match directive_dependency(d) {
                Some(x) => {
                    st.dependencies.push(x);
                    st.dep_added = true;
                    assert(strings_view(st.dependencies@) =~= deps0.push(x@));
                },
                None => {},
            }
        },
        _ => {
            assert(st.imports@ =~= old(st).imports@ + Seq::<char>::empty());
        },
    }
    push_token_render(&mut st.render_code, t);
}

fn scan_tokens(tokens: &Vec<Token>) -> (st: TokenScan)
    ensures
        scan_describes(st, tokens_view(tokens@), tokens@.len() as int),
{
    let ghost ts = tokens_view(tokens@);
    let mut st = TokenScan {
        imports: String::new(),
        render_code: String::new(),
        dependencies: Vec::new(),
        has_request: false,
        has_control: false,
        escape_code: false,
        lazy_directive: false,
        dep_added: false,
    };
    let mut k: usize = 0;
    assert(ts.take(0) =~= Seq::<TokenView>::empty());
    assert(strings_view(st.dependencies@) =~= Seq::<Seq<char>>::empty());
    while k < tokens.len()
        invariant
            ts == tokens_view(tokens@),
            k <= tokens.len(),
            scan_describes(st, ts, k as int),
        decreases tokens.len() - k,
    {
        let t = &tokens[k];
        assert(t@ == ts[k as int]);
        scan_token(&mut st, t);
        proof {
            assert(ts.take(k + 1).drop_last() =~= ts.take(k as int));
            assert(ts.take(k + 1).last() == ts[k as int]);
            assert(st.imports@ =~= imports_of(ts.take(k + 1)));
            assert(st.render_code@ =~= render_of(ts.take(k + 1)));
            assert(strings_view(st.dependencies@) =~= deps_of(ts.take(k + 1)));
        }
        k = k + 1;
    }
    assert(ts.take(k as int) =~= ts);
    st
}

/// The declarations one per line, whether one mentions lazy initialisation,
/// and whether one names the HTML-escape helper.
fn scan_declarations(decls_v: &Vec<String>) -> (r: (String, bool, bool))
    ensures
        r.0@ == static_of(strings_view(decls_v@)),
        r.1 == (exists|j: int|
            0 <= j < decls_v@.len() && mentions_lazy(#[trigger] strings_view(decls_v@)[j])),
        r.2 == (exists|j: int|
            0 <= j < decls_v@.len() && mentions_escape(#[trigger] strings_view(decls_v@)[j])),
{
    let ghost decls = strings_view(decls_v@);
    let mut static_code = String::new();
    let mut lazy_decl = false;
    let mut escape_decl = false;
    let mut i: usize = 0;
    assert(decls.take(0) =~= Seq::<Seq<char>>::empty());
    while i < decls_v.len()
        invariant
            decls == strings_view(decls_v@),
            i <= decls_v.len(),
            static_code@ == static_of(decls.take(i as int)),
            lazy_decl == (exists|j: int| 0 <= j < i && mentions_lazy(#[trigger] decls[j])),
            escape_decl == (exists|j: int| 0 <= j < i && mentions_escape(#[trigger] decls[j])),
        decreases decls_v.len() - i,
    {
        let d = decls_v[i].as_str();
        assert(d@ == decls[i as int]);
        let lazy_here = contains_str(d, "Lazy<") || contains_str(d, "once_cell");
        let escape_here = contains_str(d, "escape_html");
        lazy_decl = lazy_decl || lazy_here;
        escape_decl = escape_decl || escape_here;
        static_code.append(d);
        push_char(&mut static_code, '\n');
        proof {
            assert(decls.take(i + 1).drop_last() =~= decls.take(i as int));
            assert(static_code@ =~= static_of(decls.take(i + 1)));
        }
        i = i + 1;
    }
    assert(decls.take(i as int) =~= decls);
    (static_code, lazy_decl, escape_decl)
}

/// The import section: runtime or escape imports, then a lazy import unless
/// one is already there, in front of the directive imports.
fn import_section(imports: String, runtime: bool, escape: bool, lazy: bool) -> (r: String)
    ensures
        r@ == ({
            let with_runtime = if runtime {
                RUNTIME_IMPORTS@ + imports@
            } else if escape {
                ESCAPE_IMPORT@ + imports@
            } else {
                imports@
            };
            if lazy && !occurs_in(with_runtime, "use once_cell"@) {
                LAZY_IMPORT@ + with_runtime
            } else {
                with_runtime
            }
        }),
{
    let mut all_imports = if runtime {
        let mut x = String::from_str(RUNTIME_IMPORTS);
        x.append(imports.as_str());
        x
    } else if escape {
        let mut x = String::from_str(ESCAPE_IMPORT);
        x.append(imports.as_str());
        x
    } else {
        imports
    };
    if lazy && !contains_str(all_imports.as_str(), "use once_cell") {
        let mut x = String::from_str(LAZY_IMPORT);
        x.append(all_imports.as_str());
        all_imports = x;
    }
    all_imports
}

/// Puts the source file together from its parts.
fn assemble(imports: &str, static_code: &str, runtime: bool, render_code: &str) -> (r: String)
    ensures
        r@ == SOURCE_HEAD@ + imports@ + seq!['\n'] + static_code@ + NO_MANGLE@ + EXPORT_RENDER@
            + RENDER_START@ + (if runtime {
            REQUEST_INIT@
        } else {
            Seq::empty()
        }) + INDENT@ + render_code@ + source_tail(),
{
    let mut source = String::from_str(SOURCE_HEAD);
    source.append(imports);
    push_char(&mut source, '\n');
    source.append(static_code);
    source.append(NO_MANGLE);
    source.append(EXPORT_RENDER);
    source.append(RENDER_START);
    if runtime {
        source.append(REQUEST_INIT);
    }
    let ghost head = source@;
    source.append(INDENT);
    source.append(render_code);
    source.append(RENDER_END);
    source.append(EXPORT_FREE_STRING);
    source.append(FREE_STRING_BODY);
    source.append(EXPORT_GET_STATUS_CODE);
    source.append(GET_STATUS_CODE_BODY);
    source.append(EXPORT_GET_REDIRECT);
    source.append(GET_REDIRECT_BODY);
    source.append(EXPORT_GET_COOKIES);
    source.append(GET_COOKIES_BODY);
    source.append(EXPORT_GET_HEADERS);
    source.append(GET_HEADERS_BODY);
    proof {
        if !runtime {
            assert(head =~= SOURCE_HEAD@ + imports@ + seq!['\n'] + static_code@ + NO_MANGLE@
                + EXPORT_RENDER@ + RENDER_START@ + Seq::<char>::empty());
        }
        assert(source@ =~= head + INDENT@ + render_code@ + source_tail());
    }
    source
}

proof fn lemma_occurs_self(n: Seq<char>)
    ensures
        occurs_in(n, n),
{
    assert(n.subrange(0, n.len() as int) =~= n);
    assert(occurs_at(n, n, 0));
}

proof fn lemma_occurs_left(x: Seq<char>, y: Seq<char>, n: Seq<char>)
    requires
        occurs_in(x, n),
    ensures
        occurs_in(x + y, n),
{
    let i = choose|i: int| occurs_at(x, n, i);
    assert((x + y).subrange(i, i + n.len()) =~= x.subrange(i, i + n.len()));
    assert(occurs_at(x + y, n, i));
}

proof fn lemma_occurs_right(x: Seq<char>, y: Seq<char>, n: Seq<char>)
    requires
        occurs_in(y, n),
    ensures
        occurs_in(x + y, n),
{
    let i = choose|i: int| occurs_at(y, n, i);
    assert((x + y).subrange(x.len() + i, x.len() + i + n.len()) =~= y.subrange(i, i + n.len()));
    assert(occurs_at(x + y, n, x.len() + i));
}

/// Each export signature appears in the part of the source after the render
/// body.
proof fn lemma_tail_exports()
    ensures
        occurs_in(source_tail(), EXPORT_FREE_STRING@),
        occurs_in(source_tail(), EXPORT_GET_STATUS_CODE@),
        occurs_in(source_tail(), EXPORT_GET_REDIRECT@),
        occurs_in(source_tail(), EXPORT_GET_COOKIES@),
        occurs_in(source_tail(), EXPORT_GET_HEADERS@),
{
    let re = RENDER_END@;
    let (e1, b1) = (EXPORT_FREE_STRING@, FREE_STRING_BODY@);
    let (e2, b2) = (EXPORT_GET_STATUS_CODE@, GET_STATUS_CODE_BODY@);
    let (e3, b3) = (EXPORT_GET_REDIRECT@, GET_REDIRECT_BODY@);
    let (e4, b4) = (EXPORT_GET_COOKIES@, GET_COOKIES_BODY@);
    let (e5, b5) = (EXPORT_GET_HEADERS@, GET_HEADERS_BODY@);
    let p1 = re + e1;
    let p2 = p1 + b1 + e2;
    let p3 = p2 + b2 + e3;
    let p4 = p3 + b3 + e4;
    let p5 = p4 + b4 + e5;
    lemma_occurs_self(e1);
    lemma_occurs_right(re, e1, e1);
    lemma_occurs_self(e2);
    lemma_occurs_right(p1 + b1, e2, e2);
    lemma_occurs_self(e3);
    lemma_occurs_right(p2 + b2, e3, e3);
    lemma_occurs_self(e4);
    lemma_occurs_right(p3 + b3, e4, e4);
    lemma_occurs_self(e5);
    lemma_occurs_right(p4 + b4, e5, e5);
    lemma_occurs_left(p5, b5, e5);
    lemma_occurs_left(p4, b4, e4);
    lemma_occurs_left(p4 + b4, e5, e4);
    lemma_occurs_left(p5, b5, e4);
    lemma_occurs_left(p3, b3, e3);
    lemma_occurs_left(p3 + b3, e4, e3);
    lemma_occurs_left(p4, b4, e3);
    lemma_occurs_left(p4 + b4, e5, e3);
    lemma_occurs_left(p5, b5, e3);
    lemma_occurs_left(p2, b2, e2);
    lemma_occurs_left(p2 + b2, e3, e2);
    lemma_occurs_left(p3, b3, e2);
    lemma_occurs_left(p3 + b3, e4, e2);
    lemma_occurs_left(p4, b4, e2);
    lemma_occurs_left(p4 + b4, e5, e2);
    lemma_occurs_left(p5, b5, e2);
    lemma_occurs_left(p1, b1, e1);
    lemma_occurs_left(p1 + b1, e2, e1);
    lemma_occurs_left(p2, b2, e1);
    lemma_occurs_left(p2 + b2, e3, e1);
    lemma_occurs_left(p3, b3, e1);
    lemma_occurs_left(p3 + b3, e4, e1);
    lemma_occurs_left(p4, b4, e1);
    lemma_occurs_left(p4 + b4, e5, e1);
    lemma_occurs_left(p5, b5, e1);
}

/// Every generated source defines all six exports of the C ABI: `render`,
/// `free_string`, `get_status_code`, `get_redirect`, `get_cookies` and
/// `get_headers`.
pub proof fn law_exports_present(ts: Seq<TokenView>, decls: Seq<Seq<char>>)
    ensures
        occurs_in(source_of(ts, decls), EXPORT_RENDER@),
        occurs_in(source_of(ts, decls), EXPORT_FREE_STRING@),
        occurs_in(source_of(ts, decls), EXPORT_GET_STATUS_CODE@),
        occurs_in(source_of(ts, decls), EXPORT_GET_REDIRECT@),
        occurs_in(source_of(ts, decls), EXPORT_GET_COOKIES@),
        occurs_in(source_of(ts, decls), EXPORT_GET_HEADERS@),
{
    let pre = SOURCE_HEAD@ + imports_section(ts, decls) + seq!['\n'] + static_of(decls) + NO_MANGLE@;
    let init = if needs_runtime(ts) {
        REQUEST_INIT@
    } else {
        Seq::empty()
    };
    let x1 = pre + EXPORT_RENDER@;
    let x2 = x1 + RENDER_START@;
    let x3 = x2 + init;
    let x4 = x3 + INDENT@;
    let x5 = x4 + render_of(ts);
    lemma_occurs_self(EXPORT_RENDER@);
    lemma_occurs_right(pre, EXPORT_RENDER@, EXPORT_RENDER@);
    lemma_occurs_left(x1, RENDER_START@, EXPORT_RENDER@);
    lemma_occurs_left(x2, init, EXPORT_RENDER@);
    lemma_occurs_left(x3, INDENT@, EXPORT_RENDER@);
    lemma_occurs_left(x4, render_of(ts), EXPORT_RENDER@);
    lemma_occurs_left(x5, source_tail(), EXPORT_RENDER@);
    lemma_tail_exports();
    lemma_occurs_right(x5, source_tail(), EXPORT_FREE_STRING@);
    lemma_occurs_right(x5, source_tail(), EXPORT_GET_STATUS_CODE@);
    lemma_occurs_right(x5, source_tail(), EXPORT_GET_REDIRECT@);
    lemma_occurs_right(x5, source_tail(), EXPORT_GET_COOKIES@);
    lemma_occurs_right(x5, source_tail(), EXPORT_GET_HEADERS@);
}

pub struct Generator;

impl Default for Generator {
    fn default() -> (r: Generator) {
        Generator::new()
    }
}

impl Generator {
    pub fn new() -> (r: Generator) {
        Generator
    }

    /// The source file for `parsed` and what building it needs.
    pub fn generate_full_source(&self, parsed: &ParsedTemplate) -> (r: GeneratedCode)
        ensures
            r.source@ == source_of(tokens_view(parsed.tokens@), strings_view(parsed.declarations@)),
            r.needs_cargo == needs_package(
                tokens_view(parsed.tokens@),
                strings_view(parsed.declarations@),
            ),
            strings_view(r.dependencies@) == deps_of(tokens_view(parsed.tokens@)),
    {
        let ghost ts = tokens_view(parsed.tokens@);
        let ghost decls = strings_view(parsed.declarations@);
        let (static_code, lazy_decl, escape_decl) = scan_declarations(&parsed.declarations);
        let st = scan_tokens(&parsed.tokens);
        let runtime = st.has_request || st.has_control;
        let escape = escape_decl || st.escape_code;
        let lazy = lazy_decl || st.lazy_directive;
        assert(ts.take(ts.len() as int) =~= ts);
        assert(runtime == needs_runtime(ts));
        assert(escape == uses_escape(ts, decls));
        assert(lazy == uses_lazy(ts, decls));
        let all_imports = import_section(st.imports, runtime, escape, lazy);
        let source = assemble(all_imports.as_str(), static_code.as_str(), runtime, st.render_code.as_str());
        GeneratedCode { source, needs_cargo: st.dep_added || runtime || escape, dependencies: st.dependencies }
    }
}
} // verus!
