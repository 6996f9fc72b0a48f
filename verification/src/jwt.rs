//! The authentication middleware: path-filtered bearer-token verification.
//! Requests whose path is exempt pass through untouched — their headers are
//! never consulted; all others must carry a bearer token this pipeline's
//! codec accepts, and the decoded claims ride along in the request's
//! extension slot for downstream handlers.

use vstd::prelude::*;

use crate::claims::{Claims, ClaimsV};
use crate::http::{bearer_of, bearer_token, Request, RequestV, Response, ResponseV};
use crate::interceptor::in_list;
use crate::res::Res;
use crate::token::{decode_spec, valid_token, TokenCodec};

verus! {

/// The authentication layer: exempt paths plus the codec configuration.
pub struct JwtAuth {
    pub filter: Vec<String>,
    pub codec: TokenCodec,
}

/// What a `JwtAuth` is mathematically.
pub struct JwtAuthV {
    pub filter: Seq<Seq<char>>,
    pub secret: Seq<u8>,
    pub duration: u64,
}

impl View for JwtAuth {
    type V = JwtAuthV;

    open spec fn view(&self) -> JwtAuthV {
        JwtAuthV {
            filter: self.filter@.map_values(|s: String| s@),
            secret: self.codec.secret@,
            duration: self.codec.duration,
        }
    }
}

impl JwtAuth {
    /// An authentication layer exempting the listed paths, verifying all
    /// other requests with `codec`.
    pub fn new(filter: Vec<String>, codec: TokenCodec) -> (r: JwtAuth)
        ensures
            r@.filter == filter@.map_values(|s: String| s@),
            r@.secret == codec.secret@,
            r@.duration == codec.duration,
    {
        JwtAuth { filter, codec }
    }
}

/// The per-request worker of the authentication layer.
pub struct JwtAuthService {
    pub auth: JwtAuth,
}

impl JwtAuth {
    /// Wraps the layer into its per-request worker.
    pub fn layer(self) -> (s: JwtAuthService)
        ensures
            s.auth@ == self@,
    {
        JwtAuthService { auth: self }
    }
}

/// What the authentication stage decides for one request.
pub enum AuthStepV {
    /// Hand the (possibly extended) request to the inner service.
    Proceed(RequestV),
    /// Short-circuit with this response.
    Halt(ResponseV),
}

/// The 401 response for a request with no bearer token.
pub open spec fn missing_token_response() -> ResponseV {
    ResponseV {
        status: 401,
        headers: Seq::<(Seq<char>, Seq<char>)>::empty(),
        body: "request missing token"@,
    }
}

/// The 401 response for a bearer token the codec rejects.
pub open spec fn bad_token_response() -> ResponseV {
    ResponseV {
        status: 401,
        headers: Seq::<(Seq<char>, Seq<char>)>::empty(),
        body: "authentication failed"@,
    }
}

/// The authentication decision: exempt paths pass through unchanged;
/// otherwise the bearer token must decode, and the claims are attached.
pub open spec fn auth_step_spec(a: JwtAuthV, req: RequestV, now: u64) -> AuthStepV {
    if in_list(a.filter, req.path) {
        AuthStepV::Proceed(req)
    } else {
        match bearer_of(req.headers) {
            None => AuthStepV::Halt(missing_token_response()),
            Some(t) => match decode_spec(a.secret, t, now) {
                Some(cv) => AuthStepV::Proceed(RequestV { claims: Some(cv), ..req }),
                None => AuthStepV::Halt(bad_token_response()),
            },
        }
    }
}

/// Extracts and decodes the bearer token of a non-exempt request.
fn auth_token(codec: &TokenCodec, req: &Request, now: u64) -> (r: Result<Claims, Response>)
    ensures
        match r {
            Ok(c) => bearer_of(req@.headers) matches Some(t) && decode_spec(codec.secret@, t, now)
                == Some(c@),
            Err(resp) => (match bearer_of(req@.headers) {
                None => resp@ == missing_token_response(),
                Some(t) => decode_spec(codec.secret@, t, now) is None && resp@
                    == bad_token_response(),
            }),
        },
{
    let tok = match bearer_token(&req.headers) {
        Some(t) => t,
        None => {
            let resp = Res::<u64>::auth("request missing token").response();
            proof {
                reveal_strlit("request missing token");
                assert(resp@ =~= missing_token_response());
            }
            return Err(resp);
        },
    };
    let now_r = self_decode(codec, tok.as_str(), now);
    match now_r {
        Ok(c) => Ok(c),
        Err(_) => {
            let resp = Res::<u64>::auth("").response();
            proof {
                reveal_strlit("");
                assert(resp@ =~= bad_token_response());
            }
            Err(resp)
        },
    }
}

/// Decodes and ties the outcome to [`decode_spec`].
fn self_decode(codec: &TokenCodec, token: &str, now: u64) -> (r: Result<Claims, ()>)
    ensures
        match r {
            Ok(c) => decode_spec(codec.secret@, token@, now) == Some(c@),
            Err(_) => decode_spec(codec.secret@, token@, now) is None,
        },
{
    match codec.decode(token, now) {
        Ok(c) => {
            proof {
                assert(valid_token(codec.secret@, token@, now, c@));
                let w = choose|cv: ClaimsV| valid_token(codec.secret@, token@, now, cv);
                assert(valid_token(codec.secret@, token@, now, w));
                assert(c@ == w);
            }
            Ok(c)
        },
        Err(_) => {
            proof {
                if exists|cv: ClaimsV| valid_token(codec.secret@, token@, now, cv) {
                    let w = choose|cv: ClaimsV| valid_token(codec.secret@, token@, now, cv);
                    assert(valid_token(codec.secret@, token@, now, w));
                }
            }
            Err(())
        },
    }
}

impl JwtAuthService {
    /// Runs the authentication stage on one request at time `now` (seconds
    /// since the epoch): `Ok` carries the request onward, `Err` is the
    /// short-circuit response.
    pub fn call(&self, req: Request, now: u64) -> (r: Result<Request, Response>)
        ensures
            match r {
                Ok(req2) => auth_step_spec(self.auth@, req@, now) == AuthStepV::Proceed(req2@),
                Err(resp) => auth_step_spec(self.auth@, req@, now) == AuthStepV::Halt(resp@),
            },
    {
        let exempt = crate::interceptor::list_contains(&self.auth.filter, &req.path);
        if exempt {
            return Ok(req);
        }
        match auth_token(&self.auth.codec, &req, now) {
            Ok(c) => {
                let ghost oldv = req@;
                let mut req2 = req;
                req2.claims = Some(c);
                proof {
                    assert(req2@ =~= RequestV { claims: Some(c@), ..oldv });
                }
                Ok(req2)
            },
            Err(resp) => Err(resp),
        }
    }
}

/// Exempt requests are passed through untouched whatever their headers:
/// for any two requests that agree on everything but the header list and
/// whose shared path is exempt, the stage hands each one through unchanged
/// — it never consults the authorization header.
pub proof fn lemma_exempt_ignores_headers(a: JwtAuthV, req1: RequestV, req2: RequestV, now: u64)
    requires
        in_list(a.filter, req1.path),
        req2 == (RequestV { headers: req2.headers, ..req1 }),
    ensures
        auth_step_spec(a, req1, now) == AuthStepV::Proceed(req1),
        auth_step_spec(a, req2, now) == AuthStepV::Proceed(req2),
{
    assert(req2.path == req1.path);
}

} // verus!
