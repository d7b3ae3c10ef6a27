//! How the development server maps a request onto a page and hands the
//! request headers to it.

use vstd::prelude::*;
use crate::text::{chars_of, has_prefix, push_char, starts_with_str, to_upper, upper_of};

verus! {

/// `s` with every leading copy of `p` removed.
pub open spec fn strip_prefixes(s: Seq<char>, p: Seq<char>) -> Seq<char>
    decreases s.len(),
{
    if p.len() > 0 && has_prefix(s, p) {
        strip_prefixes(s.subrange(p.len() as int, s.len() as int), p)
    } else {
        s
    }
}

/// `s` with every leading copy of the non-empty `p` removed.
pub(crate) fn strip_prefixes_str<'a>(s: &'a str, p: &str) -> (r: &'a str)
    requires
        p@.len() > 0,
    ensures
        r@ == strip_prefixes(s@, p@),
{
    let plen = p.unicode_len();
    let mut cur = s;
    while starts_with_str(cur, p)
        invariant
            plen == p@.len(),
            p@.len() > 0,
            strip_prefixes(cur@, p@) == strip_prefixes(s@, p@),
        decreases cur@.len(),
    {
        let n = cur.unicode_len();
        cur = cur.substring_char(plen, n);
    }
    cur
}


pub open spec fn has_suffix(s: Seq<char>, x: Seq<char>) -> bool {
    x.len() <= s.len() && s.subrange(s.len() - x.len(), s.len() as int) == x
}

/// The page a URL path asks for: the path without its leading slashes, with
/// the index file appended for a directory (and standing for an empty path).
pub open spec fn page_path_of(uri_path: Seq<char>, index: Seq<char>) -> Seq<char> {
    let p = strip_prefixes(uri_path, "/"@);
    if p.len() == 0 {
        index
    } else if p.last() == '/' {
        p + index
    } else {
        p
    }
}

/// The page a URL path asks for.
pub fn page_path(uri_path: &str, default_index: &str) -> (r: String)
    ensures
        r@ == page_path_of(uri_path@, default_index@),
{
    proof {
        reveal_strlit("/");
    }
    let p = strip_prefixes_str(uri_path, "/");
    let n = p.unicode_len();
    if n == 0 {
        default_index.to_owned()
    } else if p.get_char(n - 1) == '/' {
        let mut r = p.to_owned();
        r.append(default_index);
        r
    } else {
        p.to_owned()
    }
}

/// Whether `path` names a template page: it ends in `.rsp`.
pub fn is_page(path: &str) -> (r: bool)
    ensures
        r == has_suffix(path@, ".rsp"@),
{
    proof {
        reveal_strlit(".rsp");
    }
    let cs = chars_of(path);
    let n = cs.len();
    if n < 4 {
        return false;
    }
    let r = cs[n - 4] == '.' && cs[n - 3] == 'r' && cs[n - 2] == 's' && cs[n - 1] == 'p';
    proof {
        let sub = path@.subrange(n - 4, n as int);
        assert(".rsp"@ =~= seq!['.', 'r', 's', 'p']);
        assert(sub[0] == cs[n - 4] && sub[1] == cs[n - 3] && sub[2] == cs[n - 2] && sub[3] == cs[n - 1]);
        if r {
            assert(sub =~= ".rsp"@);
        } else if sub == ".rsp"@ {
            assert(sub[0] == '.' && sub[1] == 'r' && sub[2] == 's' && sub[3] == 'p');
        }
    }
    r
}

/// `s` with every `-` written as `_`.
pub open spec fn underscored(s: Seq<char>) -> Seq<char> {
    s.map_values(|c: char| if c == '-' { '_' } else { c })
}

/// The environment variable that carries the request header `name` to a
/// page: `HTTP_` and the name uppercased, with `-` as `_`.
pub fn header_env_key(name: &str) -> (r: String)
    ensures
        r@ == "HTTP_"@ + upper_of(underscored(name@)),
{
    let cs = chars_of(name);
    let mut u = String::new();
    let mut i: usize = 0;
    while i < cs.len()
        invariant
            cs@ == name@,
            i <= cs.len(),
            u@ == underscored(name@.take(i as int)),
        decreases cs.len() - i,
    {
        if cs[i] == '-' {
            push_char(&mut u, '_');
        } else {
            push_char(&mut u, cs[i]);
        }
        assert(u@ =~= underscored(name@.take(i + 1)));
        i = i + 1;
    }
    assert(name@.take(i as int) =~= name@);
    let mut r = String::from_str("HTTP_");
    let upper = to_upper(u.as_str());
    r.append(upper.as_str());
    r
}

} // verus!
