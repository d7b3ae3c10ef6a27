//! The request object that compiled pages read: query and form parameters,
//! cookies and headers, built from the CGI-style environment variables that
//! the server sets for each request.

use vstd::prelude::*;
use crate::parser::strings_view;
use crate::table::{
    copy_entries, entries_map, entries_view, lookup, lookup_or, lookup_str, value_or_empty,
};
use crate::text::{
    chars_of, decimal_i64, has_prefix, lower_of, parse_i64, push_char, split_on, starts_with_str,
    lossy_text, text_from_bytes, to_lower, trim_str, trimmed,
};
use crate::wire::{find_char, first_index, split_chars};
use vstd::utf8::encode_utf8;

verus! {

/// The value of an ASCII hexadecimal digit.
pub open spec fn hex_value(x: u8) -> Option<int> {
    if 48 <= x && x <= 57 {
        Some(x - 48)
    } else if 97 <= x && x <= 102 {
        Some(x - 97 + 10)
    } else if 65 <= x && x <= 70 {
        Some(x - 65 + 10)
    } else {
        None
    }
}

/// The bytes `b` from `i` on decode to: `+` is a space, `%` followed by two
/// hex digits is the byte they write, and every other byte stands for itself
/// (a `%` without two hex digits after it included).
pub open spec fn url_bytes_from(b: Seq<u8>, i: int) -> Seq<u8>
    decreases b.len() - i,
{
    if i < 0 || i >= b.len() {
        Seq::empty()
    } else if b[i] == 43 {
        seq![32u8] + url_bytes_from(b, i + 1)
    } else if b[i] == 37 && i + 2 < b.len() && hex_value(b[i + 1]) is Some && hex_value(
        b[i + 2],
    ) is Some {
        seq![(hex_value(b[i + 1])->0 * 16 + hex_value(b[i + 2])->0) as u8] + url_bytes_from(b, i + 3)
    } else {
        seq![b[i]] + url_bytes_from(b, i + 1)
    }
}

/// The bytes that the UTF-8 form of `s` decodes to.
pub open spec fn url_bytes(s: Seq<char>) -> Seq<u8> {
    url_bytes_from(encode_utf8(s), 0)
}

/// A URL-encoded value decoded: its bytes read as UTF-8, with each invalid
/// sequence replaced.
pub open spec fn url_decoded(s: Seq<char>) -> Seq<char> {
    lossy_text(url_bytes(s))
}

fn hex_digit(x: u8) -> (r: Option<u8>)
    ensures
        r matches Some(v) ==> hex_value(x) == Some(v as int),
        r is None ==> hex_value(x) is None,
{
    if 48 <= x && x <= 57 {
        Some(x - 48)
    } else if 97 <= x && x <= 102 {
        Some(x - 97 + 10)
    } else if 65 <= x && x <= 70 {
        Some(x - 65 + 10)
    } else {
        None
    }
}

/// The bytes a URL-encoded value decodes to.
pub fn url_decode_bytes(s: &str) -> (r: Vec<u8>)
    ensures
        r@ == url_bytes(s@),
{
    let b = s.as_bytes();
    let ghost bs = encode_utf8(s@);
    assert(b@ == bs);
    let n = b.len();
    let mut r: Vec<u8> = Vec::new();
    let mut i: usize = 0;
    while i < n
        invariant
            b@ == bs,
            n == bs.len(),
            i <= n,
            r@ + url_bytes_from(bs, i as int) == url_bytes_from(bs, 0),
        decreases n - i,
    {
        let ghost r0 = r@;
        let x = b[i];
        if x == 43 {
            r.push(32);
            i = i + 1;
            assert(r0 + url_bytes_from(bs, i - 1) =~= r@ + url_bytes_from(bs, i as int));
        } else {
            let mut decoded: Option<u8> = None;
            if x == 37 && n - i > 2 {
                match (hex_digit(b[i + 1]), hex_digit(b[i + 2])) {
                    (Some(h), Some(l)) => {
                        decoded = Some(h * 16 + l);
                    },
                    _ => {},
                }
            }
            match decoded {
                Some(v) => {
                    r.push(v);
                    i = i + 3;
                    assert(r0 + url_bytes_from(bs, i - 3) =~= r@ + url_bytes_from(bs, i as int));
                },
                None => {
                    r.push(x);
                    i = i + 1;
                    assert(r0 + url_bytes_from(bs, i - 1) =~= r@ + url_bytes_from(bs, i as int));
                },
            }
        }
    }
    assert(r@ + url_bytes_from(bs, i as int) =~= r@);
    r
}

/// Decodes a URL-encoded value.
pub fn urldecode(s: &str) -> (r: String)
    ensures
        r@ == url_decoded(s@),
{
    let bytes = url_decode_bytes(s);
    text_from_bytes(&bytes)
}

/// One character as HTML text.
pub open spec fn html_char(c: char) -> Seq<char> {
    if c == '&' {
        "&amp;"@
    } else if c == '<' {
        "&lt;"@
    } else if c == '>' {
        "&gt;"@
    } else if c == '"' {
        "&quot;"@
    } else if c == '\'' {
        "&#39;"@
    } else {
        seq![c]
    }
}

pub open spec fn html_escaped(s: Seq<char>) -> Seq<char>
    decreases s.len(),
{
    if s.len() == 0 {
        Seq::empty()
    } else {
        html_escaped(s.drop_last()) + html_char(s.last())
    }
}

/// `s` with `&`, `<`, `>`, `"` and `'` written as HTML entities.
pub fn escape_html(s: &str) -> (r: String)
    ensures
        r@ == html_escaped(s@),
{
    let cs = chars_of(s);
    let mut r = String::new();
    let mut i: usize = 0;
    while i < cs.len()
        invariant
            cs@ == s@,
            i <= cs.len(),
            r@ == html_escaped(s@.take(i as int)),
        decreases cs.len() - i,
    {
        let c = cs[i];
        if c == '&' {
            r.append("&amp;");
        } else if c == '<' {
            r.append("&lt;");
        } else if c == '>' {
            r.append("&gt;");
        } else if c == '"' {
            r.append("&quot;");
        } else if c == '\'' {
            r.append("&#39;");
        } else {
            push_char(&mut r, c);
        }
        assert(s@.take(i + 1).drop_last() =~= s@.take(i as int));
        assert(r@ =~= html_escaped(s@.take(i as int)) + html_char(c));
        i = i + 1;
    }
    assert(s@.take(cs.len() as int) =~= s@);
    r
}

/// The key and decoded value in one `key=value` piece; none when the key is
/// empty. A piece without `=` has an empty value.
pub open spec fn pair_of(piece: Seq<char>) -> Option<(Seq<char>, Seq<char>)> {
    let (key, raw) = match first_index(piece, '=') {
        Some(k) => (piece.subrange(0, k), piece.subrange(k + 1, piece.len() as int)),
        None => (piece, Seq::empty()),
    };
    if key.len() == 0 {
        None
    } else {
        Some((key, url_decoded(raw)))
    }
}

/// The pairs in `pieces`, each trimmed first when `trim` holds.
pub open spec fn pairs_of(pieces: Seq<Seq<char>>, trim: bool) -> Seq<(Seq<char>, Seq<char>)>
    decreases pieces.len(),
{
    if pieces.len() == 0 {
        Seq::empty()
    } else {
        let rest = pairs_of(pieces.drop_last(), trim);
        let p = if trim {
            trimmed(pieces.last())
        } else {
            pieces.last()
        };
        match pair_of(p) {
            Some(e) => rest.push(e),
            None => rest,
        }
    }
}

/// The parameters of a query string or form body.
pub open spec fn params_of(s: Seq<char>) -> Map<Seq<char>, Seq<char>> {
    entries_map(pairs_of(split_on(s, '&'), false))
}

/// The cookies of a `Cookie` header value.
pub open spec fn cookie_map_of(s: Seq<char>) -> Map<Seq<char>, Seq<char>> {
    entries_map(pairs_of(split_on(s, ';'), true))
}

/// Splits `s` at `sep` into `key=value` pairs with decoded values.
fn parse_pairs(s: &str, sep: char, trim: bool) -> (r: Vec<(String, String)>)
    ensures
        entries_view(r@) == pairs_of(split_on(s@, sep), trim),
{
    let pieces = split_chars(s, sep);
    let ghost ps = strings_view(pieces@);
    let mut r: Vec<(String, String)> = Vec::new();
    let mut i: usize = 0;
    assert(ps.take(0) =~= Seq::<Seq<char>>::empty());
    assert(entries_view(r@) =~= Seq::<(Seq<char>, Seq<char>)>::empty());
    while i < pieces.len()
        invariant
            ps == strings_view(pieces@),
            ps == split_on(s@, sep),
            i <= pieces.len(),
            entries_view(r@) == pairs_of(ps.take(i as int), trim),
        decreases pieces.len() - i,
    {
        let ghost r0 = entries_view(r@);
        assert(ps.take(i + 1).drop_last() =~= ps.take(i as int));
        assert(ps.take(i + 1).last() == pieces[i as int]@);
        let p = if trim {
            trim_str(pieces[i].as_str())
        } else {
            pieces[i].as_str()
        };
        let (key, raw) = match find_char(p, '=') {
            Some(k) => {
                proof {
                    lemma_first_index_in(p@, '=');
                }
                let n = p.unicode_len();
                (p.substring_char(0, k), p.substring_char(k + 1, n))
            },
            None => {
                proof {
                    reveal_strlit("");
                }
                (p, "")
            },
        };
        if !key.is_empty() {
            let value = urldecode(raw);
            r.push((key.to_owned(), value));
            assert(entries_view(r@) =~= r0.push(pair_of(p@)->0));
        }
        i = i + 1;
    }
    assert(ps.take(i as int) =~= ps);
    r
}

proof fn lemma_first_index_in(s: Seq<char>, c: char)
    ensures
        first_index(s, c) matches Some(i) ==> 0 <= i < s.len(),
    decreases s.len(),
{
    if s.len() > 0 && s[0] != c {
        lemma_first_index_in(s.drop_first(), c);
    }
}

/// Query or form parameters. Keys are case-sensitive.
#[derive(Debug, Clone, Default)]
pub struct Params {
    entries: Vec<(String, String)>,
}

impl View for Params {
    type V = Map<Seq<char>, Seq<char>>;

    closed spec fn view(&self) -> Map<Seq<char>, Seq<char>> {
        entries_map(entries_view(self.entries@))
    }
}

impl Params {
    pub fn get(&self, key: &str) -> (r: Option<&String>)
        ensures
            r matches Some(v) ==> self@.contains_key(key@) && v@ == self@[key@],
            r is None ==> !self@.contains_key(key@),
    {
        lookup(&self.entries, key)
    }

    /// The value of `key`, or the empty text.
    pub fn str(&self, key: &str) -> (r: &str)
        ensures
            r@ == value_or_empty(self@, key@),
    {
        lookup_str(&self.entries, key)
    }

    /// The value of `key`, or `default`.
    pub fn or(&self, key: &str, default: &str) -> (r: String)
        ensures
            r@ == if self@.contains_key(key@) {
                self@[key@]
            } else {
                default@
            },
    {
        lookup_or(&self.entries, key, default)
    }
}

impl std::ops::Index<&str> for Params {
    type Output = str;

    fn index(&self, key: &str) -> &str {
        lookup_str(&self.entries, key)
    }
}

/// Cookies. Names are case-sensitive.
#[derive(Debug, Clone, Default)]
pub struct Cookies {
    entries: Vec<(String, String)>,
}

impl View for Cookies {
    type V = Map<Seq<char>, Seq<char>>;

    closed spec fn view(&self) -> Map<Seq<char>, Seq<char>> {
        entries_map(entries_view(self.entries@))
    }
}

impl Cookies {
    pub fn get(&self, key: &str) -> (r: Option<&String>)
        ensures
            r matches Some(v) ==> self@.contains_key(key@) && v@ == self@[key@],
            r is None ==> !self@.contains_key(key@),
    {
        lookup(&self.entries, key)
    }

    /// The value of `key`, or the empty text.
    pub fn str(&self, key: &str) -> (r: &str)
        ensures
            r@ == value_or_empty(self@, key@),
    {
        lookup_str(&self.entries, key)
    }

    /// The value of `key`, or `default`.
    pub fn or(&self, key: &str, default: &str) -> (r: String)
        ensures
            r@ == if self@.contains_key(key@) {
                self@[key@]
            } else {
                default@
            },
    {
        lookup_or(&self.entries, key, default)
    }
}

impl std::ops::Index<&str> for Cookies {
    type Output = str;

    fn index(&self, key: &str) -> &str {
        lookup_str(&self.entries, key)
    }
}

/// Request headers, stored under lowercase names; lookups lowercase the
/// name asked for.
#[derive(Debug, Clone, Default)]
pub struct Headers {
    entries: Vec<(String, String)>,
}

impl View for Headers {
    type V = Map<Seq<char>, Seq<char>>;

    closed spec fn view(&self) -> Map<Seq<char>, Seq<char>> {
        entries_map(entries_view(self.entries@))
    }
}

impl Headers {
    pub fn get(&self, key: &str) -> (r: Option<&String>)
        ensures
            r matches Some(v) ==> self@.contains_key(lower_of(key@)) && v@ == self@[lower_of(key@)],
            r is None ==> !self@.contains_key(lower_of(key@)),
    {
        let k = to_lower(key);
        lookup(&self.entries, k.as_str())
    }

    /// The value of `key`, or the empty text.
    pub fn str(&self, key: &str) -> (r: &str)
        ensures
            r@ == value_or_empty(self@, lower_of(key@)),
    {
        let k = to_lower(key);
        lookup_str(&self.entries, k.as_str())
    }

    /// The value of `key`, or `default`.
    pub fn or(&self, key: &str, default: &str) -> (r: String)
        ensures
            r@ == if self@.contains_key(lower_of(key@)) {
                self@[lower_of(key@)]
            } else {
                default@
            },
    {
        let k = to_lower(key);
        lookup_or(&self.entries, k.as_str(), default)
    }
}

impl std::ops::Index<&str> for Headers {
    type Output = str;

    fn index(&self, key: &str) -> &str {
        let k = to_lower(key);
        lookup_str(&self.entries, k.as_str())
    }
}

/// The value of environment variable `key`, or the empty text.
pub open spec fn env_or_empty(vars: Seq<(Seq<char>, Seq<char>)>, key: Seq<char>) -> Seq<char> {
    value_or_empty(entries_map(vars), key)
}

/// The value of environment variable `key`, or `default`.
pub open spec fn env_or(vars: Seq<(Seq<char>, Seq<char>)>, key: Seq<char>, default: Seq<char>) -> Seq<char> {
    if entries_map(vars).contains_key(key) {
        entries_map(vars)[key]
    } else {
        default
    }
}

pub open spec fn hyphenated(s: Seq<char>) -> Seq<char> {
    s.map_values(|c: char| if c == '_' { '-' } else { c })
}

/// The header each `HTTP_<NAME>` variable gives: `<NAME>` with `_` as `-`,
/// lowercased.
pub open spec fn http_headers(vars: Seq<(Seq<char>, Seq<char>)>) -> Seq<(Seq<char>, Seq<char>)>
    decreases vars.len(),
{
    if vars.len() == 0 {
        Seq::empty()
    } else {
        let rest = http_headers(vars.drop_last());
        let (k, v) = vars.last();
        if has_prefix(k, "HTTP_"@) {
            rest.push((lower_of(hyphenated(k.subrange(5, k.len() as int))), v))
        } else {
            rest
        }
    }
}

/// All request headers: the `HTTP_` variables, then the content type and
/// length when set.
pub open spec fn header_entries(vars: Seq<(Seq<char>, Seq<char>)>) -> Seq<(Seq<char>, Seq<char>)> {
    let m = entries_map(vars);
    let with_type = if m.contains_key("CONTENT_TYPE"@) {
        http_headers(vars).push(("content-type"@, m["CONTENT_TYPE"@]))
    } else {
        http_headers(vars)
    };
    if m.contains_key("CONTENT_LENGTH"@) {
        with_type.push(("content-length"@, m["CONTENT_LENGTH"@]))
    } else {
        with_type
    }
}

/// The client address: the first comma-separated entry of the forwarded-for
/// header, trimmed (empty if that entry is), or `real_ip` when there is no
/// such header.
pub open spec fn client_ip(forwarded: Option<Seq<char>>, real_ip: Seq<char>) -> Seq<char> {
    match forwarded {
        Some(f) => trimmed(
            match first_index(f, ',') {
                Some(k) => f.subrange(0, k),
                None => f,
            },
        ),
        None => real_ip,
    }
}

fn hyphenate(s: &str) -> (r: String)
    ensures
        r@ == hyphenated(s@),
{
    let cs = chars_of(s);
    let mut r = String::new();
    let mut i: usize = 0;
    while i < cs.len()
        invariant
            cs@ == s@,
            i <= cs.len(),
            r@ == hyphenated(s@.take(i as int)),
        decreases cs.len() - i,
    {
        if cs[i] == '_' {
            push_char(&mut r, '-');
        } else {
            push_char(&mut r, cs[i]);
        }
        assert(r@ =~= hyphenated(s@.take(i + 1)));
        i = i + 1;
    }
    assert(s@.take(i as int) =~= s@);
    r
}

fn collect_headers(vars: &Vec<(String, String)>) -> (r: Vec<(String, String)>)
    ensures
        entries_view(r@) == header_entries(entries_view(vars@)),
{
    let ghost vs = entries_view(vars@);
    let mut r: Vec<(String, String)> = Vec::new();
    let mut i: usize = 0;
    assert(vs.take(0) =~= Seq::<(Seq<char>, Seq<char>)>::empty());
    assert(entries_view(r@) =~= Seq::<(Seq<char>, Seq<char>)>::empty());
    while i < vars.len()
        invariant
            vs == entries_view(vars@),
            i <= vars.len(),
            entries_view(r@) == http_headers(vs.take(i as int)),
        decreases vars.len() - i,
    {
        let ghost r0 = entries_view(r@);
        let k = vars[i].0.as_str();
        assert(vs.take(i + 1).drop_last() =~= vs.take(i as int));
        assert(vs.take(i + 1).last() == (vars@[i as int].0@, vars@[i as int].1@));
        if starts_with_str(k, "HTTP_") {
            proof {
                reveal_strlit("HTTP_");
            }
            let n = k.unicode_len();
            let name = to_lower(hyphenate(k.substring_char(5, n)).as_str());
            r.push((name, vars[i].1.clone()));
            assert(entries_view(r@) =~= r0.push(http_headers(vs.take(i + 1)).last()));
        }
        i = i + 1;
    }
    assert(vs.take(i as int) =~= vs);
    match lookup(vars, "CONTENT_TYPE") {
        Some(ct) => {
            let ghost r0 = entries_view(r@);
            r.push((String::from_str("content-type"), ct.clone()));
            assert(entries_view(r@) =~= r0.push(("content-type"@, ct@)));
        },
        None => {},
    }
    match lookup(vars, "CONTENT_LENGTH") {
        Some(cl) => {
            let ghost r0 = entries_view(r@);
            r.push((String::from_str("content-length"), cl.clone()));
            assert(entries_view(r@) =~= r0.push(("content-length"@, cl@)));
        },
        None => {},
    }
    r
}

/// What a compiled page knows of the request it serves.
#[derive(Debug, Clone)]
pub struct Request {
    pub get: Params,
    pub post: Params,
    pub cookie: Cookies,
    pub ua: Headers,
    method: String,
    path: String,
    body: String,
}

impl Default for Request {
    fn default() -> (r: Request)
        ensures
            r.query_view() == Map::<Seq<char>, Seq<char>>::empty(),
            r.form_view() == Map::<Seq<char>, Seq<char>>::empty(),
            r.cookie_view() == Map::<Seq<char>, Seq<char>>::empty(),
            r.header_view() == Map::<Seq<char>, Seq<char>>::empty(),
            r.spec_method() == Seq::<char>::empty(),
            r.spec_path() == Seq::<char>::empty(),
            r.spec_body() == Seq::<char>::empty(),
    {
        let r = Request {
            get: Params { entries: Vec::new() },
            post: Params { entries: Vec::new() },
            cookie: Cookies { entries: Vec::new() },
            ua: Headers { entries: Vec::new() },
            method: String::new(),
            path: String::new(),
            body: String::new(),
        };
        assert(entries_view(r.get.entries@) =~= Seq::<(Seq<char>, Seq<char>)>::empty());
        assert(entries_view(r.post.entries@) =~= Seq::<(Seq<char>, Seq<char>)>::empty());
        assert(entries_view(r.cookie.entries@) =~= Seq::<(Seq<char>, Seq<char>)>::empty());
        assert(entries_view(r.ua.entries@) =~= Seq::<(Seq<char>, Seq<char>)>::empty());
        r
    }
}

impl Request {
    pub closed spec fn query_view(&self) -> Map<Seq<char>, Seq<char>> {
        self.get@
    }

    pub closed spec fn form_view(&self) -> Map<Seq<char>, Seq<char>> {
        self.post@
    }

    pub closed spec fn cookie_view(&self) -> Map<Seq<char>, Seq<char>> {
        self.cookie@
    }

    pub closed spec fn header_view(&self) -> Map<Seq<char>, Seq<char>> {
        self.ua@
    }

    pub closed spec fn spec_method(&self) -> Seq<char> {
        self.method@
    }

    pub closed spec fn spec_path(&self) -> Seq<char> {
        self.path@
    }

    pub closed spec fn spec_body(&self) -> Seq<char> {
        self.body@
    }

    /// The request described by the environment variables `vars`:
    /// `QUERY_STRING`, `RSP_BODY`, `HTTP_COOKIE`, `HTTP_*`, `CONTENT_TYPE`,
    /// `CONTENT_LENGTH`, `REQUEST_METHOD` (default `GET`) and `REQUEST_URI`
    /// (default `/`).
    pub fn new(vars: &Vec<(String, String)>) -> (r: Request)
        ensures
            r.query_view() == params_of(env_or_empty(entries_view(vars@), "QUERY_STRING"@)),
            r.spec_body() == env_or_empty(entries_view(vars@), "RSP_BODY"@),
            r.form_view() == params_of(r.spec_body()),
            r.cookie_view() == cookie_map_of(env_or_empty(entries_view(vars@), "HTTP_COOKIE"@)),
            r.header_view() == entries_map(header_entries(entries_view(vars@))),
            r.spec_method() == env_or(entries_view(vars@), "REQUEST_METHOD"@, "GET"@),
            r.spec_path() == env_or(entries_view(vars@), "REQUEST_URI"@, "/"@),
    {
        let query = lookup_str(vars, "QUERY_STRING");
        let body = lookup_str(vars, "RSP_BODY").to_owned();
        let cookie = lookup_str(vars, "HTTP_COOKIE");
        Request {
            get: Params { entries: parse_pairs(query, '&', false) },
            post: Params { entries: parse_pairs(body.as_str(), '&', false) },
            cookie: Cookies { entries: parse_pairs(cookie, ';', true) },
            ua: Headers { entries: collect_headers(vars) },
            method: lookup_or(vars, "REQUEST_METHOD", "GET"),
            path: lookup_or(vars, "REQUEST_URI", "/"),
            body,
        }
    }

    /// A copy of this request.
    pub(crate) fn duplicate(&self) -> (r: Request)
        ensures
            r.query_view() == self.query_view(),
            r.form_view() == self.form_view(),
            r.cookie_view() == self.cookie_view(),
            r.header_view() == self.header_view(),
            r.spec_method() == self.spec_method(),
            r.spec_path() == self.spec_path(),
            r.spec_body() == self.spec_body(),
    {
        Request {
            get: Params { entries: copy_entries(&self.get.entries) },
            post: Params { entries: copy_entries(&self.post.entries) },
            cookie: Cookies { entries: copy_entries(&self.cookie.entries) },
            ua: Headers { entries: copy_entries(&self.ua.entries) },
            method: self.method.clone(),
            path: self.path.clone(),
            body: self.body.clone(),
        }
    }

    /// The query parameter `key` as a number.
    pub fn get_i64(&self, key: &str) -> (r: Option<i64>)
        ensures
            r == if self.query_view().contains_key(key@) {
                decimal_i64(self.query_view()[key@])
            } else {
                None
            },
    {
        match self.get.get(key) {
            Some(v) => parse_i64(v.as_str()),
            None => None,
        }
    }

    /// The form parameter `key` as a number.
    pub fn post_i64(&self, key: &str) -> (r: Option<i64>)
        ensures
            r == if self.form_view().contains_key(key@) {
                decimal_i64(self.form_view()[key@])
            } else {
                None
            },
    {
        match self.post.get(key) {
            Some(v) => parse_i64(v.as_str()),
            None => None,
        }
    }

    pub fn method(&self) -> (r: &str)
        ensures
            r@ == self.spec_method(),
    {
        self.method.as_str()
    }

    pub fn path(&self) -> (r: &str)
        ensures
            r@ == self.spec_path(),
    {
        self.path.as_str()
    }

    pub fn body(&self) -> (r: &str)
        ensures
            r@ == self.spec_body(),
    {
        self.body.as_str()
    }

    pub fn is_post(&self) -> (r: bool)
        ensures
            r == (self.spec_method() == "POST"@),
    {
        self.method == String::from_str("POST")
    }

    pub fn is_get(&self) -> (r: bool)
        ensures
            r == (self.spec_method() == "GET"@),
    {
        self.method == String::from_str("GET")
    }

    /// The client address: the first `x-forwarded-for` entry, trimmed, or
    /// `x-real-ip` when that header is absent.
    pub fn ip(&self) -> (r: &str)
        ensures
            r@ == client_ip(
                if self.header_view().contains_key(lower_of("x-forwarded-for"@)) {
                    Some(self.header_view()[lower_of("x-forwarded-for"@)])
                } else {
                    None
                },
                value_or_empty(self.header_view(), lower_of("x-real-ip"@)),
            ),
    {
        match self.ua.get("x-forwarded-for") {
            Some(f) => {
                let forwarded = f.as_str();
                let first = match find_char(forwarded, ',') {
                    Some(k) => {
                        proof {
                            lemma_first_index_in(forwarded@, ',');
                        }
                        forwarded.substring_char(0, k)
                    },
                    None => forwarded,
                };
                trim_str(first)
            },
            None => self.ua.str("x-real-ip"),
        }
    }
}

} // verus!
