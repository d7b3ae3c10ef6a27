//! The state one render works on: the current request and the response
//! controls, with the helpers page code calls. A host keeps one such state
//! per thread and resets it for each request.

use vstd::prelude::*;
use crate::request::Request;
use crate::response::{same_control, untouched, ResponseControl};
use crate::wire::cookies_view;

verus! {

/// Two requests say the same.
pub open spec fn same_request(a: Request, b: Request) -> bool {
    &&& a.query_view() == b.query_view()
    &&& a.form_view() == b.form_view()
    &&& a.cookie_view() == b.cookie_view()
    &&& a.header_view() == b.header_view()
    &&& a.spec_method() == b.spec_method()
    &&& a.spec_path() == b.spec_path()
    &&& a.spec_body() == b.spec_body()
}

pub struct RuntimeState {
    pub request: Option<Request>,
    pub response: ResponseControl,
}

impl RuntimeState {
    /// No request and untouched controls.
    pub fn new() -> (r: RuntimeState)
        ensures
            r.request is None,
            untouched(r.response),
    {
        RuntimeState { request: None, response: ResponseControl::new() }
    }
}

/// Makes `req` the current request and resets the response controls.
pub fn set_request(state: &mut RuntimeState, req: Request)
    ensures
        final(state).request == Some(req),
        untouched(final(state).response),
{
    state.request = Some(req);
    state.response = ResponseControl::new();
}

/// The current request, or an empty one.
pub fn req(state: &RuntimeState) -> (r: Request)
    ensures
        state.request matches Some(q) ==> same_request(r, q),
        state.request is None ==> ({
            &&& r.query_view() == Map::<Seq<char>, Seq<char>>::empty()
            &&& r.form_view() == Map::<Seq<char>, Seq<char>>::empty()
            &&& r.cookie_view() == Map::<Seq<char>, Seq<char>>::empty()
            &&& r.header_view() == Map::<Seq<char>, Seq<char>>::empty()
            &&& r.spec_method() == Seq::<char>::empty()
            &&& r.spec_path() == Seq::<char>::empty()
            &&& r.spec_body() == Seq::<char>::empty()
        }),
{
    match &state.request {
        Some(q) => q.duplicate(),
        None => Request::default(),
    }
}

/// Forgets the current request.
pub fn clear_request(state: &mut RuntimeState)
    ensures
        final(state).request is None,
        final(state).response == old(state).response,
{
    state.request = None;
}

/// A copy of the response controls.
pub fn get_response_control(state: &RuntimeState) -> (r: ResponseControl)
    ensures
        same_control(r, state.response),
{
    state.response.duplicate()
}

/// Sets the status code.
pub fn header(state: &mut RuntimeState, status_code: u16)
    ensures
        final(state).response.status_code == status_code,
        final(state).response.redirect == old(state).response.redirect,
        final(state).response.cookies == old(state).response.cookies,
        final(state).response.headers == old(state).response.headers,
        final(state).request == old(state).request,
{
    state.response.status_code = status_code;
}

/// Redirects to `url` with status 302.
pub fn header_url(state: &mut RuntimeState, url: &str)
    ensures
        final(state).response.status_code == 302,
        final(state).response.redirect matches Some(u) && u@ == url@,
        final(state).response.cookies == old(state).response.cookies,
        final(state).response.headers == old(state).response.headers,
        final(state).request == old(state).request,
{
    state.response.redirect = Some(url.to_owned());
    state.response.status_code = 302;
}

/// Adds a cookie with a lifetime of `max_age` seconds.
#[allow(non_snake_case)]
pub fn SetCookie(state: &mut RuntimeState, name: &str, value: &str, max_age: i64)
    ensures
        cookies_view(final(state).response.cookies@) == cookies_view(old(state).response.cookies@).push(
            (name@, value@, max_age),
        ),
        final(state).response.status_code == old(state).response.status_code,
        final(state).response.redirect == old(state).response.redirect,
        final(state).response.headers == old(state).response.headers,
        final(state).request == old(state).request,
{
    let ghost c0 = cookies_view(state.response.cookies@);
    state.response.cookies.push((name.to_owned(), value.to_owned(), max_age));
    assert(cookies_view(state.response.cookies@) =~= c0.push((name@, value@, max_age)));
}

/// Adds a cookie that expires at once: empty value, lifetime -1.
#[allow(non_snake_case)]
pub fn CleanCookie(state: &mut RuntimeState, name: &str)
    ensures
        cookies_view(final(state).response.cookies@) == cookies_view(old(state).response.cookies@).push(
            (name@, Seq::<char>::empty(), -1i64),
        ),
        final(state).response.status_code == old(state).response.status_code,
        final(state).response.redirect == old(state).response.redirect,
        final(state).response.headers == old(state).response.headers,
        final(state).request == old(state).request,
{
    let ghost c0 = cookies_view(state.response.cookies@);
    state.response.cookies.push((name.to_owned(), String::new(), -1));
    assert(cookies_view(state.response.cookies@) =~= c0.push((name@, Seq::<char>::empty(), -1i64)));
}

} // verus!
