//! The interceptor middleware: a before hook that may reject a request
//! outright, and an after hook that may amend — but never re-categorize —
//! the response. Hooks are a closed set of tagged variants over their own
//! captured state, so each is a plain verified function of its inputs.

use vstd::prelude::*;

use crate::http::{Request, RequestV, Response, ResponseV};
use crate::res::Res;

verus! {

/// A hook that runs before the inner service and may reject the request.
pub enum BeforeHook {
    /// Reject requests whose peer address appears in the list.
    DenyPeers(Vec<String>),
}

/// What a `BeforeHook` is mathematically.
pub enum BeforeHookV {
    DenyPeers(Seq<Seq<char>>),
}

impl View for BeforeHook {
    type V = BeforeHookV;

    open spec fn view(&self) -> BeforeHookV {
        match self {
            BeforeHook::DenyPeers(l) => BeforeHookV::DenyPeers(l@.map_values(|s: String| s@)),
        }
    }
}

/// A hook that runs on the response after the inner service completes.
pub enum AfterHook {
    /// Append one header to the response.
    AddHeader(String, String),
}

/// What an `AfterHook` is mathematically.
pub enum AfterHookV {
    AddHeader(Seq<char>, Seq<char>),
}

impl View for AfterHook {
    type V = AfterHookV;

    open spec fn view(&self) -> AfterHookV {
        match self {
            AfterHook::AddHeader(k, v) => AfterHookV::AddHeader(k@, v@),
        }
    }
}

/// The interceptor middleware: optional before and after hooks.
pub struct Interceptor {
    pub before: Option<BeforeHook>,
    pub after: Option<AfterHook>,
}

/// What an `Interceptor` is mathematically.
pub struct InterceptorV {
    pub before: Option<BeforeHookV>,
    pub after: Option<AfterHookV>,
}

impl View for Interceptor {
    type V = InterceptorV;

    open spec fn view(&self) -> InterceptorV {
        InterceptorV {
            before: match self.before {
                Some(ref b) => Some(b@),
                None => None,
            },
            after: match self.after {
                Some(ref a) => Some(a@),
                None => None,
            },
        }
    }
}

impl Interceptor {
    /// An interceptor from its hooks.
    pub fn new(before: Option<BeforeHook>, after: Option<AfterHook>) -> (r: Interceptor)
        ensures
            r@.before == (match before {
                Some(ref b) => Some(b@),
                None => None::<BeforeHookV>,
            }),
            r@.after == (match after {
                Some(ref a) => Some(a@),
                None => None::<AfterHookV>,
            }),
    {
        Interceptor { before, after }
    }
}

/// Whether `x` occurs in `list`.
pub open spec fn in_list(list: Seq<Seq<char>>, x: Seq<char>) -> bool {
    exists|k: int| 0 <= k < list.len() && list[k] == x
}

/// Whether a before hook rejects the request.
pub open spec fn hook_denies(b: BeforeHookV, req: RequestV) -> bool {
    match b {
        BeforeHookV::DenyPeers(l) => req.peer matches Some(p) && in_list(l, p),
    }
}

/// Whether the interceptor's before stage rejects the request.
pub open spec fn before_denies(i: InterceptorV, req: RequestV) -> bool {
    i.before matches Some(b) && hook_denies(b, req)
}

/// The response of a rejected request.
pub open spec fn reject_response() -> ResponseV {
    ResponseV {
        status: 403,
        headers: Seq::<(Seq<char>, Seq<char>)>::empty(),
        body: "access denied"@,
    }
}

/// The response after the after hook has run.
pub open spec fn after_response(a: Option<AfterHookV>, resp: ResponseV) -> ResponseV {
    match a {
        Some(AfterHookV::AddHeader(k, v)) => ResponseV {
            status: resp.status,
            headers: resp.headers.push((k, v)),
            body: resp.body,
        },
        None => resp,
    }
}

/// Whether `x` occurs in `list`, checked element by element.
pub fn list_contains(list: &Vec<String>, x: &String) -> (r: bool)
    ensures
        r == in_list(list@.map_values(|s: String| s@), x@),
{
    let ghost lv = list@.map_values(|s: String| s@);
    let n = list.len();
    let mut i: usize = 0;
    while i < n
        invariant
            lv == list@.map_values(|s: String| s@),
            n == list@.len(),
            i <= n,
            forall|k: int| 0 <= k < i ==> lv[k] != x@,
        decreases n - i,
    {
        proof {
            assert(lv[i as int] == list@[i as int]@);
        }
        if crate::strutil::str_eq(list[i].as_str(), x.as_str()) {
            return true;
        }
        i = i + 1;
    }
    proof {
        assert(lv.len() == n);
    }
    false
}

/// Runs the before stage: `Some` is the rejection response, `None` lets
/// the request continue. The inner service never sees a rejected request.
pub fn run_before(i: &Interceptor, req: &Request) -> (r: Option<Response>)
    ensures
        match r {
            Some(resp) => before_denies(i@, req@) && resp@ == reject_response(),
            None => !before_denies(i@, req@),
        },
{
    match &i.before {
        Some(BeforeHook::DenyPeers(list)) => {
            match &req.peer {
                Some(ip) => {
                    if list_contains(list, ip) {
                        let resp = Res::<u64>::reject("").response();
                        proof {
                            reveal_strlit("");
                            assert(resp@.headers =~= reject_response().headers);
                            assert(resp@ =~= reject_response());
                        }
                        Some(resp)
                    } else {
                        None
                    }
                },
                None => None,
            }
        },
        None => None,
    }
}

/// Runs the after stage on the response: it may add a header, and keeps
/// the status and the body.
pub fn run_after(i: &Interceptor, resp: &mut Response)
    ensures
        final(resp)@ == after_response(i@.after, old(resp)@),
        final(resp)@.status == old(resp)@.status,
        final(resp)@.body == old(resp)@.body,
{
    match &i.after {
        Some(AfterHook::AddHeader(k, v)) => {
            let k2 = k.clone();
            let v2 = v.clone();
            resp.headers.push((k2, v2));
            proof {
                assert(crate::http::headers_view(resp.headers@) =~= after_response(
                    i@.after,
                    old(resp)@,
                ).headers);
            }
        },
        None => {},
    }
}

/// An interceptor that rejects requests from the listed peer addresses.
pub fn blacklist_ip(blacklist: Vec<String>) -> (r: Interceptor)
    ensures
        r@.before == Some(BeforeHookV::DenyPeers(blacklist@.map_values(|s: String| s@))),
        r@.after is None,
{
    Interceptor { before: Some(BeforeHook::DenyPeers(blacklist)), after: None }
}

} // verus!
