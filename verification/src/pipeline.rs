//! Pipeline composition: an ordered list of middleware layers applied
//! around a terminal handler at construction time. A request flows inward
//! through the layers in order, may be short-circuited, reaches the
//! handler at most once, and the response flows back outward through the
//! same layers in reverse — the nesting of a decorator chain, written as
//! explicit recursion over the layer list, with the whole execution pinned
//! by one spec-level function.

use vstd::prelude::*;

use crate::http::{Request, RequestV, Response, ResponseV};
use crate::interceptor::{after_response, before_denies, in_list, reject_response, run_after,
    run_before, Interceptor, InterceptorV};
use crate::jwt::{auth_step_spec, AuthStepV, JwtAuth, JwtAuthService, JwtAuthV};
use crate::logger::{AccessRecord, AccessRecordV, Logger, LoggerV};
use crate::time::{timestamp_wf, Timestamp};
use vstd::string::StringExecFns;

verus! {

/// The terminal handler: a route table from exact paths to responses, and
/// whether the backing resource is ready for another request.
pub struct Handler {
    pub routes: Vec<(String, u16, String)>,
    pub ready: bool,
}

/// What a `Handler` is mathematically.
pub struct HandlerV {
    pub routes: Seq<(Seq<char>, u16, Seq<char>)>,
    pub ready: bool,
}

impl View for Handler {
    type V = HandlerV;

    open spec fn view(&self) -> HandlerV {
        HandlerV {
            routes: self.routes@.map_values(
                |r: (String, u16, String)| (r.0@, r.1, r.2@),
            ),
            ready: self.ready,
        }
    }
}

/// The handler's answer: the first route matching the path, else 404.
pub open spec fn route_of(routes: Seq<(Seq<char>, u16, Seq<char>)>, path: Seq<char>) -> (
    u16,
    Seq<char>,
)
    decreases routes.len(),
{
    if routes.len() == 0 {
        (404, "not found"@)
    } else if routes[0].0 == path {
        (routes[0].1, routes[0].2)
    } else {
        route_of(routes.skip(1), path)
    }
}

/// The handler's response for a request.
pub open spec fn handler_response(h: HandlerV, req: RequestV) -> ResponseV {
    ResponseV {
        status: route_of(h.routes, req.path).0,
        headers: Seq::<(Seq<char>, Seq<char>)>::empty(),
        body: route_of(h.routes, req.path).1,
    }
}

/// One layer of a pipeline.
pub enum Middleware {
    /// Request interception: a before hook that may reject, an after hook
    /// on the response.
    Intercept(Interceptor),
    /// Bearer-token authentication.
    Auth(JwtAuthService),
    /// Per-request access logging.
    AccessLog(Logger),
}

/// What a `Middleware` is mathematically.
pub enum MiddlewareV {
    Intercept(InterceptorV),
    Auth(JwtAuthV),
    AccessLog(LoggerV),
}

impl View for Middleware {
    type V = MiddlewareV;

    open spec fn view(&self) -> MiddlewareV {
        match self {
            Middleware::Intercept(i) => MiddlewareV::Intercept(i@),
            Middleware::Auth(s) => MiddlewareV::Auth(s.auth@),
            Middleware::AccessLog(l) => MiddlewareV::AccessLog(l@),
        }
    }
}

/// An ordered middleware chain: the first layer is outermost — it sees the
/// request first and the response last. The order is fixed when the
/// pipeline is built and identical on every request.
pub struct Pipeline {
    pub layers: Vec<Middleware>,
}

impl View for Pipeline {
    type V = Seq<MiddlewareV>;

    open spec fn view(&self) -> Seq<MiddlewareV> {
        self.layers@.map_values(|m: Middleware| m@)
    }
}

impl Pipeline {
    /// A pipeline from its layers, outermost first.
    pub fn new(layers: Vec<Middleware>) -> (p: Pipeline)
        ensures
            p@ == layers@.map_values(|m: Middleware| m@),
    {
        Pipeline { layers }
    }

    /// Readiness: every layer forwards the poll to its inner service, so
    /// the composed pipeline is ready exactly when the handler is — a
    /// saturated innermost resource propagates backpressure outward.
    pub fn ready(&self, h: &Handler) -> (r: bool)
        ensures
            r == h@.ready,
    {
        h.ready
    }
}

/// What one finished request produced: the response handed back to the
/// transport, the access records emitted on the way (in emission order),
/// and how often the terminal handler ran.
pub struct Outcome {
    pub response: Response,
    pub records: Vec<AccessRecord>,
    pub handler_calls: u64,
}

/// What an `Outcome` is mathematically.
#[verifier::ext_equal]
pub struct OutcomeV {
    pub response: ResponseV,
    pub records: Seq<AccessRecordV>,
    pub handler_calls: u64,
}

impl View for Outcome {
    type V = OutcomeV;

    open spec fn view(&self) -> OutcomeV {
        OutcomeV {
            response: self.response@,
            records: self.records@.map_values(|r: AccessRecord| r@),
            handler_calls: self.handler_calls,
        }
    }
}

/// The tag an access record carries.
pub open spec fn access_tag() -> Seq<char> {
    "[HTTP]"@
}

/// The access record for one request.
pub open spec fn record_spec(req: RequestV, status: u16, begin: Timestamp, end: Timestamp)
    -> AccessRecordV {
    AccessRecordV {
        tag: access_tag(),
        begin,
        end,
        status,
        ip: match req.peer {
            Some(p) => p,
            None => ""@,
        },
        method: req.method,
        path: req.path,
        other: ""@,
    }
}

/// The seconds-since-epoch instant the authentication stage checks
/// expirations against.
pub open spec fn auth_now(begin: Timestamp) -> u64 {
    (begin.unix_millis / 1000) as u64
}

/// The whole execution of a request through the layers from `i` on: the
/// decorator chain as one function. Rejection by a layer means the inner
/// layers and the handler never run for that request.
pub open spec fn run_spec(
    layers: Seq<MiddlewareV>,
    i: int,
    h: HandlerV,
    req: RequestV,
    begin: Timestamp,
    end: Timestamp,
) -> OutcomeV
    decreases layers.len() - i,
{
    if i < 0 || i >= layers.len() {
        OutcomeV {
            response: handler_response(h, req),
            records: Seq::<AccessRecordV>::empty(),
            handler_calls: 1,
        }
    } else {
        match layers[i] {
            MiddlewareV::Intercept(iv) => {
                if before_denies(iv, req) {
                    OutcomeV {
                        response: reject_response(),
                        records: Seq::<AccessRecordV>::empty(),
                        handler_calls: 0,
                    }
                } else {
                    let o = run_spec(layers, i + 1, h, req, begin, end);
                    OutcomeV {
                        response: after_response(iv.after, o.response),
                        records: o.records,
                        handler_calls: o.handler_calls,
                    }
                }
            },
            MiddlewareV::Auth(av) => {
                match auth_step_spec(av, req, auth_now(begin)) {
                    AuthStepV::Proceed(req2) => run_spec(layers, i + 1, h, req2, begin, end),
                    AuthStepV::Halt(resp) => OutcomeV {
                        response: resp,
                        records: Seq::<AccessRecordV>::empty(),
                        handler_calls: 0,
                    },
                }
            },
            MiddlewareV::AccessLog(_) => {
                let o = run_spec(layers, i + 1, h, req, begin, end);
                OutcomeV {
                    response: o.response,
                    records: o.records.push(record_spec(req, o.response.status, begin, end)),
                    handler_calls: o.handler_calls,
                }
            },
        }
    }
}

/// The terminal handler, executably.
pub fn handle(h: &Handler, req: &Request) -> (r: Response)
    ensures
        r@ == handler_response(h@, req@),
{
    let ghost rv = h@.routes;
    let n = h.routes.len();
    let mut i: usize = 0;
    proof {
        assert(rv.skip(0) =~= rv);
    }
    while i < n
        invariant
            rv == h@.routes,
            n == h.routes@.len(),
            i <= n,
            route_of(rv, req@.path) == route_of(rv.skip(i as int), req@.path),
        decreases n - i,
    {
        proof {
            assert(rv.skip(i as int).len() > 0);
            assert(rv.skip(i as int)[0] == rv[i as int]);
            assert(rv[i as int] == (h.routes@[i as int].0@, h.routes@[i as int].1, h.routes@[
                i as int
            ].2@));
        }
        if crate::strutil::str_eq(h.routes[i].0.as_str(), req.path.as_str()) {
            let body = h.routes[i].2.clone();
            let r = Response { status: h.routes[i].1, headers: Vec::new(), body };
            proof {
                assert(crate::http::headers_view(Seq::<(String, String)>::empty())
                    =~= Seq::<(Seq<char>, Seq<char>)>::empty());
            }
            return r;
        }
        proof {
            assert(rv.skip(i as int).skip(1) =~= rv.skip(i as int + 1));
        }
        i = i + 1;
    }
    proof {
        assert(rv.skip(n as int).len() == 0);
        reveal_strlit("not found");
    }
    let r = Response { status: 404, headers: Vec::new(), body: String::from_str("not found") };
    proof {
        assert(crate::http::headers_view(Seq::<(String, String)>::empty())
            =~= Seq::<(Seq<char>, Seq<char>)>::empty());
    }
    r
}

/// Runs the request through the layers from `i` on.
fn run_from(
    layers: &Vec<Middleware>,
    i: usize,
    h: &Handler,
    req: Request,
    begin: Timestamp,
    end: Timestamp,
) -> (o: Outcome)
    requires
        i <= layers@.len(),
        forall|k: int|
            i <= k < layers@.len() && (#[trigger] layers@[k])@ is AccessLog ==> req.peer is Some,
    ensures
        o@ == run_spec(
            layers@.map_values(|m: Middleware| m@),
            i as int,
            h@,
            req@,
            begin,
            end,
        ),
    decreases layers@.len() - i,
{
    let ghost lv = layers@.map_values(|m: Middleware| m@);
    let n = layers.len();
    if i == n {
        let resp = handle(h, &req);
        let o = Outcome { response: resp, records: Vec::new(), handler_calls: 1 };
        proof {
            assert(o@.records =~= Seq::<AccessRecordV>::empty());
            assert(o@ =~= run_spec(lv, i as int, h@, req@, begin, end));
        }
        return o;
    }
    proof {
        assert(lv[i as int] == layers@[i as int]@);
    }
    match &layers[i] {
        Middleware::Intercept(iv) => {
            match run_before(iv, &req) {
                Some(resp) => {
                    let o = Outcome { response: resp, records: Vec::new(), handler_calls: 0 };
                    proof {
                        assert(o@.records =~= Seq::<AccessRecordV>::empty());
                        assert(o@ =~= run_spec(lv, i as int, h@, req@, begin, end));
                    }
                    o
                },
                None => {
                    let mut o = run_from(layers, i + 1, h, req, begin, end);
                    run_after(iv, &mut o.response);
                    proof {
                        assert(o@ =~= run_spec(lv, i as int, h@, req@, begin, end));
                    }
                    o
                },
            }
        },
        Middleware::Auth(svc) => {
            match svc.call(req, begin.unix_millis / 1000) {
                Ok(req2) => {
                    proof {
                        assert(auth_step_spec(svc.auth@, req@, auth_now(begin))
                            == AuthStepV::Proceed(req2@));
                        assert(req2@.peer == req@.peer);
                    }
                    let o = run_from(layers, i + 1, h, req2, begin, end);
                    proof {
                        assert(o@ =~= run_spec(lv, i as int, h@, req@, begin, end));
                    }
                    o
                },
                Err(resp) => {
                    let o = Outcome { response: resp, records: Vec::new(), handler_calls: 0 };
                    proof {
                        assert(o@.records =~= Seq::<AccessRecordV>::empty());
                        assert(o@ =~= run_spec(lv, i as int, h@, req@, begin, end));
                    }
                    o
                },
            }
        },
        Middleware::AccessLog(_) => {
            let method = req.method.clone();
            let path = req.path.clone();
            let ip = match &req.peer {
                Some(p) => p.clone(),
                None => {
                    proof {
                        assert(lv[i as int] is AccessLog);
                        assert(false);
                    }
                    String::new()
                },
            };
            let mut o = run_from(layers, i + 1, h, req, begin, end);
            let rec = AccessRecord {
                tag: String::from_str("[HTTP]"),
                begin,
                end,
                status: o.response.status,
                ip,
                method,
                path,
                other: String::new(),
            };
            let ghost inner = o@;
            o.records.push(rec);
            proof {
                assert(o@.records =~= inner.records.push(rec@));
                reveal_strlit("");
                assert(""@ =~= Seq::<char>::empty());
                assert(rec@ =~= record_spec(
                    req@,
                    inner.response.status,
                    begin,
                    end,
                ));
                assert(o@ =~= run_spec(lv, i as int, h@, req@, begin, end));
            }
            o
        },
    }
}

/// Runs one request through the whole pipeline around the handler.
/// `begin` is the instant the request entered, `end` the instant the
/// response left; the access logger requires the transport to have
/// attached the peer address.
pub fn run(p: &Pipeline, h: &Handler, req: Request, begin: Timestamp, end: Timestamp) -> (o:
    Outcome)
    requires
        (exists|k: int| 0 <= k < p@.len() && (#[trigger] p@[k]) is AccessLog) ==> req.peer
            is Some,
    ensures
        o@ == run_spec(p@, 0, h@, req@, begin, end),
{
    proof {
        assert forall|k: int|
            0 <= k < p.layers@.len() && (#[trigger] p.layers@[k])@ is AccessLog implies req.peer
            is Some by {
            assert(p@[k] == p.layers@[k]@);
        }
    }
    run_from(&p.layers, 0, h, req, begin, end)
}

/// A denylist interceptor rejects a listed peer before anything inside it
/// runs: the inner layers and the handler observe zero invocations, no
/// record is emitted by inner access loggers, and the response is the 403
/// rejection.
pub proof fn lemma_denylist_rejects(
    layers: Seq<MiddlewareV>,
    h: HandlerV,
    req: RequestV,
    begin: Timestamp,
    end: Timestamp,
)
    requires
        layers.len() > 0,
        layers[0] matches MiddlewareV::Intercept(iv) && before_denies(iv, req),
    ensures
        run_spec(layers, 0, h, req, begin, end).handler_calls == 0,
        run_spec(layers, 0, h, req, begin, end).response == reject_response(),
        run_spec(layers, 0, h, req, begin, end).records == Seq::<AccessRecordV>::empty(),
{
}

/// When every authentication layer exempts the request's path, the
/// pipeline's outcome does not depend on the request's headers at all: two
/// requests that agree on everything but their header lists produce the
/// same response, the same records, and the same handler count — the
/// authorization header is never inspected.
pub proof fn lemma_exempt_ignores_headers(
    layers: Seq<MiddlewareV>,
    i: int,
    h: HandlerV,
    req1: RequestV,
    req2: RequestV,
    begin: Timestamp,
    end: Timestamp,
)
    requires
        0 <= i <= layers.len(),
        req2 == (RequestV { headers: req2.headers, ..req1 }),
        forall|k: int|
            i <= k < layers.len() && (#[trigger] layers[k]) is Auth ==> in_list(
                layers[k]->Auth_0.filter,
                req1.path,
            ),
    ensures
        run_spec(layers, i, h, req1, begin, end) == run_spec(layers, i, h, req2, begin, end),
    decreases layers.len() - i,
{
    if i >= layers.len() {
        assert(run_spec(layers, i, h, req1, begin, end) =~= run_spec(
            layers,
            i,
            h,
            req2,
            begin,
            end,
        ));
    } else {
        match layers[i] {
            MiddlewareV::Intercept(iv) => {
                lemma_exempt_ignores_headers(layers, i + 1, h, req1, req2, begin, end);
                assert(before_denies(iv, req1) == before_denies(iv, req2));
                assert(run_spec(layers, i, h, req1, begin, end) =~= run_spec(
                    layers,
                    i,
                    h,
                    req2,
                    begin,
                    end,
                ));
            },
            MiddlewareV::Auth(av) => {
                assert(in_list(av.filter, req1.path));
                crate::jwt::lemma_exempt_ignores_headers(av, req1, req2, auth_now(begin));
                lemma_exempt_ignores_headers(layers, i + 1, h, req1, req2, begin, end);
                assert(run_spec(layers, i, h, req1, begin, end) =~= run_spec(
                    layers,
                    i,
                    h,
                    req2,
                    begin,
                    end,
                ));
            },
            MiddlewareV::AccessLog(_) => {
                lemma_exempt_ignores_headers(layers, i + 1, h, req1, req2, begin, end);
                assert(record_spec(
                    req1,
                    run_spec(layers, i + 1, h, req1, begin, end).response.status,
                    begin,
                    end,
                ) =~= record_spec(
                    req2,
                    run_spec(layers, i + 1, h, req2, begin, end).response.status,
                    begin,
                    end,
                ));
                assert(run_spec(layers, i, h, req1, begin, end) =~= run_spec(
                    layers,
                    i,
                    h,
                    req2,
                    begin,
                    end,
                ));
            },
        }
    }
}

} // verus!
