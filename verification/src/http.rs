//! Plain request and response values, as the dispatch boundary sees them.

use vstd::prelude::*;

use crate::method::Method;
use crate::paths::pair_views;

verus! {

/// An incoming request, as the transport hands it over: method, path,
/// headers, and the body as one already-read string.
pub struct Request {
    pub method: Method,
    pub path: String,
    pub headers: Vec<(String, String)>,
    pub body: String,
}

/// The mathematical form of a request.
pub struct ReqView {
    pub method: Method,
    pub path: Seq<char>,
    pub headers: Seq<(Seq<char>, Seq<char>)>,
    pub body: Seq<char>,
}

impl View for Request {
    type V = ReqView;

    open spec fn view(&self) -> ReqView {
        ReqView {
            method: self.method,
            path: self.path@,
            headers: pair_views(self.headers@),
            body: self.body@,
        }
    }
}

/// What a dispatch produces: status, headers, and the body.
pub struct Response {
    pub status: u16,
    pub headers: Vec<(String, String)>,
    pub body: String,
}

/// The mathematical form of a response.
pub struct RespView {
    pub status: u16,
    pub headers: Seq<(Seq<char>, Seq<char>)>,
    pub body: Seq<char>,
}

impl View for Response {
    type V = RespView;

    open spec fn view(&self) -> RespView {
        RespView { status: self.status, headers: pair_views(self.headers@), body: self.body@ }
    }
}

/// The response synthesized when no node matches the path.
pub open spec fn spec_not_found() -> RespView {
    RespView { status: 404, headers: Seq::empty(), body: Seq::empty() }
}

/// The response synthesized when a node matches but carries no handler for
/// the method.
pub open spec fn spec_method_not_allowed() -> RespView {
    RespView { status: 405, headers: Seq::empty(), body: Seq::empty() }
}

impl Response {
    /// A successful response around the given body.
    pub fn text(body: String) -> (r: Response)
        ensures
            r@ == (RespView { status: 200, headers: Seq::empty(), body: body@ }),
    {
        let r = Response { status: 200, headers: Vec::new(), body };
        proof {
            assert(r@.headers =~= Seq::<(Seq<char>, Seq<char>)>::empty());
        }
        r
    }

    pub fn not_found() -> (r: Response)
        ensures
            r@ == spec_not_found(),
    {
        let r = Response { status: 404, headers: Vec::new(), body: String::new() };
        proof {
            assert(r@.headers =~= Seq::<(Seq<char>, Seq<char>)>::empty());
        }
        r
    }

    pub fn method_not_allowed() -> (r: Response)
        ensures
            r@ == spec_method_not_allowed(),
    {
        let r = Response { status: 405, headers: Vec::new(), body: String::new() };
        proof {
            assert(r@.headers =~= Seq::<(Seq<char>, Seq<char>)>::empty());
        }
        r
    }
}

/// The value under the first pair whose key is `name`, if any.
pub open spec fn spec_lookup(ps: Seq<(Seq<char>, Seq<char>)>, name: Seq<char>) -> Option<Seq<char>>
    decreases ps.len(),
{
    if ps.len() == 0 {
        None
    } else if ps[0].0 == name {
        Some(ps[0].1)
    } else {
        spec_lookup(ps.skip(1), name)
    }
}

/// First-match lookup in a list of string pairs.
pub fn lookup_pair<'a>(ps: &'a Vec<(String, String)>, name: &String) -> (r: Option<&'a String>)
    ensures
        match r {
            Some(v) => spec_lookup(pair_views(ps@), name@) == Some(v@),
            None => spec_lookup(pair_views(ps@), name@) is None,
        },
{
    let ghost pv = pair_views(ps@);
    proof {
        assert(pv.skip(0) =~= pv);
    }
    let n = ps.len();
    let mut k: usize = 0;
    while k < n
        invariant
            n == ps@.len(),
            k <= n,
            pv == pair_views(ps@),
            pv.len() == n,
            forall|t: int| 0 <= t < n ==> pv[t] == (ps@[t].0@, ps@[t].1@),
            spec_lookup(pv.skip(k as int), name@) == spec_lookup(pv, name@),
        decreases n - k,
    {
        proof {
            assert(pv.skip(k as int)[0] == pv[k as int]);
            assert(pv.skip(k as int).skip(1) =~= pv.skip(k as int + 1));
        }
        if ps[k].0 == *name {
            return Some(&ps[k].1);
        }
        k = k + 1;
    }
    proof {
        assert(pv.skip(n as int) =~= Seq::<(Seq<char>, Seq<char>)>::empty());
    }
    None
}

} // verus!
