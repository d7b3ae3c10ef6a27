//! The response controls a page sets while it renders: status, redirect,
//! cookies and extra headers.

use vstd::prelude::*;
use crate::table::{copy_entries, entries_view};
use crate::text::{decimal_of, format_i64};
use crate::wire::{cookies_view, headers_view};

verus! {

#[derive(Debug, Clone)]
pub struct ResponseControl {
    pub status_code: u16,
    pub redirect: Option<String>,
    pub cookies: Vec<(String, String, i64)>,
    pub headers: Vec<(String, String)>,
}

/// Two controls say the same.
pub open spec fn same_control(a: ResponseControl, b: ResponseControl) -> bool {
    &&& a.status_code == b.status_code
    &&& (a.redirect is Some <==> b.redirect is Some)
    &&& (a.redirect is Some ==> a.redirect->0@ == b.redirect->0@)
    &&& cookies_view(a.cookies@) == cookies_view(b.cookies@)
    &&& headers_view(a.headers@) == headers_view(b.headers@)
}

/// The controls of a page that set nothing.
pub open spec fn untouched(c: ResponseControl) -> bool {
    &&& c.status_code == 200
    &&& c.redirect is None
    &&& cookies_view(c.cookies@) == Seq::<(Seq<char>, Seq<char>, i64)>::empty()
    &&& headers_view(c.headers@) == Seq::<(Seq<char>, Seq<char>)>::empty()
}

impl Default for ResponseControl {
    fn default() -> (r: ResponseControl)
        ensures
            untouched(r),
    {
        ResponseControl::new()
    }
}

impl ResponseControl {
    /// Status 200, no redirect, no cookies, no headers.
    pub fn new() -> (r: ResponseControl)
        ensures
            untouched(r),
    {
        let r = ResponseControl {
            status_code: 200,
            redirect: None,
            cookies: Vec::new(),
            headers: Vec::new(),
        };
        assert(cookies_view(r.cookies@) =~= Seq::<(Seq<char>, Seq<char>, i64)>::empty());
        assert(headers_view(r.headers@) =~= Seq::<(Seq<char>, Seq<char>)>::empty());
        r
    }

    pub fn add_header(&mut self, name: String, value: String)
        ensures
            headers_view(final(self).headers@) == headers_view(old(self).headers@).push(
                (name@, value@),
            ),
            final(self).status_code == old(self).status_code,
            final(self).redirect == old(self).redirect,
            final(self).cookies == old(self).cookies,
    {
        let ghost h0 = headers_view(self.headers@);
        let ghost n = name@;
        let ghost v = value@;
        self.headers.push((name, value));
        assert(headers_view(self.headers@) =~= h0.push((n, v)));
    }

    /// A copy of these controls.
    pub(crate) fn duplicate(&self) -> (r: ResponseControl)
        ensures
            same_control(r, *self),
    {
        let mut cookies: Vec<(String, String, i64)> = Vec::new();
        let mut i: usize = 0;
        while i < self.cookies.len()
            invariant
                i <= self.cookies.len(),
                cookies_view(cookies@) == cookies_view(self.cookies@).take(i as int),
            decreases self.cookies.len() - i,
        {
            let a = self.cookies[i].0.clone();
            let b = self.cookies[i].1.clone();
            let c = self.cookies[i].2;
            let ghost c0 = cookies_view(cookies@);
            cookies.push((a, b, c));
            assert(cookies_view(cookies@) =~= c0.push((a@, b@, c)));
            assert(cookies_view(self.cookies@).take(i + 1) =~= cookies_view(self.cookies@).take(
                i as int,
            ).push((a@, b@, c)));
            i = i + 1;
        }
        assert(cookies_view(self.cookies@).take(i as int) =~= cookies_view(self.cookies@));
        let headers = copy_entries(&self.headers);
        assert(headers_view(headers@) =~= entries_view(headers@));
        assert(headers_view(self.headers@) =~= entries_view(self.headers@));
        let redirect = match &self.redirect {
            Some(u) => Some(u.clone()),
            None => None,
        };
        ResponseControl { status_code: self.status_code, redirect, cookies, headers }
    }
}

/// The `Set-Cookie` value for a cookie record: a negative lifetime expires the
/// cookie at once and drops its value.
pub open spec fn set_cookie_line(name: Seq<char>, value: Seq<char>, max_age: i64) -> Seq<char> {
    if max_age < 0 {
        name + "=; Path=/; Max-Age=0; HttpOnly"@
    } else {
        name + "="@ + value + "; Path=/; Max-Age="@ + decimal_of(max_age as int) + "; HttpOnly"@
    }
}

/// The `Set-Cookie` value for a cookie record.
pub fn set_cookie_header(name: &str, value: &str, max_age: i64) -> (r: String)
    ensures
        r@ == set_cookie_line(name@, value@, max_age),
{
    let mut r = name.to_owned();
    if max_age < 0 {
        r.append("=; Path=/; Max-Age=0; HttpOnly");
    } else {
        r.append("=");
        r.append(value);
        r.append("; Path=/; Max-Age=");
        let n = format_i64(max_age);
        r.append(n.as_str());
        r.append("; HttpOnly");
    }
    r
}

/// A cookie set with a negative lifetime reaches the client as a cleared
/// cookie does.
pub proof fn law_negative_age_clears(name: Seq<char>, value: Seq<char>, max_age: i64)
    requires
        max_age < 0,
    ensures
        set_cookie_line(name, value, max_age) == set_cookie_line(name, Seq::empty(), -1i64),
{
}

} // verus!
