//! The rendering pipeline's own steps: a template is parsed, turned into
//! source and named by the hash of its text; what a compiled page hands back
//! is read into a `RenderResult`.

use vstd::prelude::*;
use crate::compiler::{BuildStep, Compiler};
use crate::generator::{deps_of, needs_package, source_of, GeneratedCode, Generator};
use crate::parser::{declarations_of, parse_tokens, strings_view, ParseError, Parser};
use crate::wire::{
    cookies_of, cookies_view, encode_cookies, encode_headers, headers_of, headers_view,
    parse_cookies, parse_headers,
};

verus! {

/// What a render produced: the body and the response controls.
#[derive(Debug, Clone)]
pub struct RenderResult {
    pub content: String,
    pub status_code: u16,
    pub redirect: Option<String>,
    pub cookies: Vec<(String, String, i64)>,
    pub headers: Vec<(String, String)>,
}

pub struct RenderView {
    pub content: Seq<char>,
    pub status_code: u16,
    pub redirect: Option<Seq<char>>,
    pub cookies: Seq<(Seq<char>, Seq<char>, i64)>,
    pub headers: Seq<(Seq<char>, Seq<char>)>,
}

pub open spec fn opt_view(o: Option<String>) -> Option<Seq<char>> {
    match o {
        Some(s) => Some(s@),
        None => None,
    }
}

impl View for RenderResult {
    type V = RenderView;

    open spec fn view(&self) -> RenderView {
        RenderView {
            content: self.content@,
            status_code: self.status_code,
            redirect: opt_view(self.redirect),
            cookies: cookies_view(self.cookies@),
            headers: headers_view(self.headers@),
        }
    }
}

/// The result read from what a page handed back: an empty redirect counts as
/// none; cookies and headers are read from their payloads.
pub open spec fn wire_result(
    content: Seq<char>,
    status_code: u16,
    redirect: Option<Seq<char>>,
    cookies: Seq<char>,
    headers: Seq<char>,
) -> RenderView {
    RenderView {
        content,
        status_code,
        redirect: match redirect {
            Some(r) => if r.len() == 0 {
                None
            } else {
                Some(r)
            },
            None => None,
        },
        cookies: cookies_of(cookies),
        headers: headers_of(headers),
    }
}

impl Default for RenderResult {
    fn default() -> (r: RenderResult)
        ensures
            r@ == (RenderView {
                content: Seq::empty(),
                status_code: 200,
                redirect: None,
                cookies: Seq::empty(),
                headers: Seq::empty(),
            }),
    {
        let r = RenderResult {
            content: String::new(),
            status_code: 200,
            redirect: None,
            cookies: Vec::new(),
            headers: Vec::new(),
        };
        assert(r@.cookies =~= Seq::<(Seq<char>, Seq<char>, i64)>::empty());
        assert(r@.headers =~= Seq::<(Seq<char>, Seq<char>)>::empty());
        r
    }
}

impl RenderResult {
    /// The result of a page that rendered `content`, reported `status_code`
    /// and `redirect`, and handed back the cookie and header payloads.
    pub fn from_wire(
        content: String,
        status_code: u16,
        redirect: Option<String>,
        cookies: &str,
        headers: &str,
    ) -> (r: RenderResult)
        ensures
            r@ == wire_result(content@, status_code, opt_view(redirect), cookies@, headers@),
    {
        let redirect = match redirect {
            Some(r) => if r.as_str().is_empty() {
                None
            } else {
                Some(r)
            },
            None => None,
        };
        RenderResult {
            content,
            status_code,
            redirect,
            cookies: parse_cookies(cookies),
            headers: parse_headers(headers),
        }
    }
}

/// What an include of a missing file renders: an HTML comment naming it.
pub fn include_missing(relative_path: &str) -> (r: String)
    ensures
        r@ == "<!-- Include error: "@ + relative_path@ + " not found -->"@,
{
    let mut r = String::from_str("<!-- Include error: ");
    r.append(relative_path);
    r.append(" not found -->");
    r
}

/// The hex-encoded SHA-256 digest of the UTF-8 bytes of a text.
pub uninterp spec fn sha256_hex(s: Seq<char>) -> Seq<char>;

/// Relies on `sha2::Sha256::digest` over the UTF-8 bytes of `s`, printed with
/// generic-array's `LowerHex`: two lowercase hex digits for each of the 32
/// bytes, depending on the text alone.
#[verifier::external_body]
fn sha256_hex_of(s: &str) -> (r: String)
    ensures
        r@ == sha256_hex(s@),
        r@.len() == 64,
{
    format!("{:x}", <sha2::Sha256 as sha2::Digest>::digest(s.as_bytes()))
}

/// A template ready for compiling: its source and the name of its artifact.
pub struct RenderJob {
    pub hash: String,
    pub generated: GeneratedCode,
}

/// Parses `content`, generates its source and hashes its text; fails only
/// when a tag is left open.
pub fn prepare_render(content: &str) -> (r: Result<RenderJob, ParseError>)
    ensures
        r is Err <==> parse_tokens(content@) is None,
        r matches Ok(job) ==> ({
            let ts = parse_tokens(content@)->0;
            &&& job.hash@ == sha256_hex(content@)
            &&& job.generated.source@ == source_of(ts, declarations_of(ts))
            &&& job.generated.needs_cargo == needs_package(ts, declarations_of(ts))
            &&& strings_view(job.generated.dependencies@) == deps_of(ts)
        }),
{
    let parser = Parser::new();
    let parsed = match parser.parse(content) {
        Ok(p) => p,
        Err(e) => {
            return Err(e);
        },
    };
    let generator = Generator::new();
    let generated = generator.generate_full_source(&parsed);
    let hash = sha256_hex_of(content);
    Ok(RenderJob { hash, generated })
}

/// Equal template texts name the same artifact, and once that artifact
/// exists a compile of either builds nothing.
pub proof fn law_artifact_by_content(
    c: Compiler,
    s1: Seq<char>,
    s2: Seq<char>,
    package: bool,
    step: BuildStep,
)
    requires
        s1 == s2,
        c.is_step_for(step, sha256_hex(s2), package, true),
    ensures
        c.artifact_of(sha256_hex(s1)) == c.artifact_of(sha256_hex(s2)),
        step matches BuildStep::Cached { artifact } && artifact@ == c.artifact_of(sha256_hex(s1)),
{
}

/// A page that sets no status, redirect, cookie or header hands back status
/// 200, no redirect and two empty payloads; that reads as the body with
/// status 200, no redirect, no cookies and no headers.
pub proof fn law_untouched_controls(body: Seq<char>)
    ensures
        wire_result(body, 200, None, encode_cookies(Seq::empty()), encode_headers(Seq::empty()))
            == (RenderView {
            content: body,
            status_code: 200,
            redirect: None,
            cookies: Seq::empty(),
            headers: Seq::empty(),
        }),
{
    assert(encode_cookies(Seq::empty()) =~= Seq::<char>::empty());
    assert(encode_headers(Seq::empty()) =~= Seq::<char>::empty());
}

} // verus!
