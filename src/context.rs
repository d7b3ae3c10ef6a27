//! A plain request description that a host can hand to page code, kept in a
//! slot the host owns.

use vstd::prelude::*;
use crate::table::{copy_entries, entries_map, entries_view, lookup};

verus! {

/// Method, path, query parameters, headers and body of a request. In
/// `query` and `headers` a later entry for a key replaces an earlier one.
#[derive(Debug, Clone, Default)]
pub struct RequestContext {
    pub method: String,
    pub path: String,
    pub query: Vec<(String, String)>,
    pub headers: Vec<(String, String)>,
    pub body: Option<String>,
}

/// Two contexts say the same.
pub open spec fn same_context(a: RequestContext, b: RequestContext) -> bool {
    &&& a.method@ == b.method@
    &&& a.path@ == b.path@
    &&& entries_view(a.query@) == entries_view(b.query@)
    &&& entries_view(a.headers@) == entries_view(b.headers@)
    &&& (a.body is Some <==> b.body is Some)
    &&& (a.body is Some ==> a.body->0@ == b.body->0@)
}

impl RequestContext {
    /// A `GET` of `/` with no parameters, headers or body.
    pub fn new() -> (r: RequestContext)
        ensures
            r.method@ == "GET"@,
            r.path@ == "/"@,
            r.query@.len() == 0,
            r.headers@.len() == 0,
            r.body is None,
    {
        RequestContext {
            method: String::from_str("GET"),
            path: String::from_str("/"),
            query: Vec::new(),
            headers: Vec::new(),
            body: None,
        }
    }

    pub fn query(&self, key: &str) -> (r: Option<&String>)
        ensures
            r matches Some(v) ==> entries_map(entries_view(self.query@)).contains_key(key@) && v@
                == entries_map(entries_view(self.query@))[key@],
            r is None ==> !entries_map(entries_view(self.query@)).contains_key(key@),
    {
        lookup(&self.query, key)
    }

    pub fn header(&self, key: &str) -> (r: Option<&String>)
        ensures
            r matches Some(v) ==> entries_map(entries_view(self.headers@)).contains_key(key@) && v@
                == entries_map(entries_view(self.headers@))[key@],
            r is None ==> !entries_map(entries_view(self.headers@)).contains_key(key@),
    {
        lookup(&self.headers, key)
    }

    pub fn method(&self) -> (r: &str)
        ensures
            r@ == self.method@,
    {
        self.method.as_str()
    }

    pub fn path(&self) -> (r: &str)
        ensures
            r@ == self.path@,
    {
        self.path.as_str()
    }

    fn duplicate(&self) -> (r: RequestContext)
        ensures
            same_context(r, *self),
    {
        RequestContext {
            method: self.method.clone(),
            path: self.path.clone(),
            query: copy_entries(&self.query),
            headers: copy_entries(&self.headers),
            body: match &self.body {
                Some(b) => Some(b.clone()),
                None => None,
            },
        }
    }
}

/// Puts `ctx` in the slot.
pub fn set_context(slot: &mut Option<RequestContext>, ctx: RequestContext)
    ensures
        *final(slot) == Some(ctx),
{
    *slot = Some(ctx);
}

/// A copy of what the slot holds.
pub fn get_context(slot: &Option<RequestContext>) -> (r: Option<RequestContext>)
    ensures
        r is Some <==> slot is Some,
        r is Some ==> same_context(r->0, slot->0),
{
    match slot {
        Some(c) => Some(c.duplicate()),
        None => None,
    }
}

/// Empties the slot.
pub fn clear_context(slot: &mut Option<RequestContext>)
    ensures
        *final(slot) is None,
{
    *slot = None;
}

} // verus!
