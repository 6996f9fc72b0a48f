//! The request and response values the pipeline moves: plain data with a
//! typed extension slot for the peer address and one for decoded claims.

use vstd::prelude::*;

use crate::claims::{Claims, ClaimsV};

verus! {

/// One inbound request, owned by the pipeline for the duration of a call.
pub struct Request {
    pub method: String,
    pub path: String,
    pub headers: Vec<(String, String)>,
    /// The peer address, attached by the transport before the pipeline runs.
    pub peer: Option<String>,
    /// Decoded claims, attached by the authentication middleware.
    pub claims: Option<Claims>,
    pub body: String,
}

/// What a `Request` is mathematically.
#[verifier::ext_equal]
pub struct RequestV {
    pub method: Seq<char>,
    pub path: Seq<char>,
    pub headers: Seq<(Seq<char>, Seq<char>)>,
    pub peer: Option<Seq<char>>,
    pub claims: Option<ClaimsV>,
    pub body: Seq<char>,
}

/// The view of a header list.
pub open spec fn headers_view(h: Seq<(String, String)>) -> Seq<(Seq<char>, Seq<char>)> {
    h.map_values(|p: (String, String)| (p.0@, p.1@))
}

impl View for Request {
    type V = RequestV;

    open spec fn view(&self) -> RequestV {
        RequestV {
            method: self.method@,
            path: self.path@,
            headers: headers_view(self.headers@),
            peer: match self.peer {
                Some(ref p) => Some(p@),
                None => None,
            },
            claims: match self.claims {
                Some(ref c) => Some(c@),
                None => None,
            },
            body: self.body@,
        }
    }
}

/// One outbound response, passed by move back through the layers.
pub struct Response {
    pub status: u16,
    pub headers: Vec<(String, String)>,
    pub body: String,
}

/// What a `Response` is mathematically.
#[verifier::ext_equal]
pub struct ResponseV {
    pub status: u16,
    pub headers: Seq<(Seq<char>, Seq<char>)>,
    pub body: Seq<char>,
}

impl View for Response {
    type V = ResponseV;

    open spec fn view(&self) -> ResponseV {
        ResponseV { status: self.status, headers: headers_view(self.headers@), body: self.body@ }
    }
}

/// The value of the first header named `name`, if any.
pub open spec fn header_of(headers: Seq<(Seq<char>, Seq<char>)>, name: Seq<char>) -> Option<
    Seq<char>,
>
    decreases headers.len(),
{
    if headers.len() == 0 {
        None
    } else if headers[0].0 == name {
        Some(headers[0].1)
    } else {
        header_of(headers.skip(1), name)
    }
}

/// The bearer token of a request: the `authorization` header stripped of
/// its `Bearer ` prefix; `None` when the header is missing or not of that
/// scheme.
pub open spec fn bearer_of(headers: Seq<(Seq<char>, Seq<char>)>) -> Option<Seq<char>> {
    match header_of(headers, "authorization"@) {
        Some(v) => {
            let p = "Bearer "@;
            if v.len() >= p.len() && v.subrange(0, p.len() as int) == p {
                Some(v.subrange(p.len() as int, v.len() as int))
            } else {
                None
            }
        },
        None => None,
    }
}

/// Finds the first header named `name`.
pub fn header_get(headers: &Vec<(String, String)>, name: &str) -> (r: Option<String>)
    ensures
        match r {
            Some(v) => header_of(headers_view(headers@), name@) == Some(v@),
            None => header_of(headers_view(headers@), name@) is None,
        },
{
    let n = headers.len();
    let mut i: usize = 0;
    proof {
        assert(headers_view(headers@).skip(0) =~= headers_view(headers@));
    }
    while i < n
        invariant
            n == headers@.len(),
            i <= n,
            header_of(headers_view(headers@), name@) == header_of(
                headers_view(headers@).skip(i as int),
                name@,
            ),
        decreases n - i,
    {
        let ghost hv = headers_view(headers@);
        proof {
            assert(hv.skip(i as int).len() > 0);
            assert(hv.skip(i as int)[0] == hv[i as int]);
            assert(hv[i as int] == (headers@[i as int].0@, headers@[i as int].1@));
        }
        if crate::strutil::str_eq(headers[i].0.as_str(), name) {
            let v = headers[i].1.clone();
            return Some(v);
        }
        proof {
            assert(hv.skip(i as int).skip(1) =~= hv.skip(i as int + 1));
        }
        i = i + 1;
    }
    proof {
        assert(headers_view(headers@).skip(n as int).len() == 0);
    }
    None
}

/// Extracts the bearer token of a request's headers.
pub fn bearer_token(headers: &Vec<(String, String)>) -> (r: Option<String>)
    ensures
        match r {
            Some(t) => bearer_of(headers_view(headers@)) == Some(t@),
            None => bearer_of(headers_view(headers@)) is None,
        },
{
    let v = match header_get(headers, "authorization") {
        Some(v) => v,
        None => { return None; },
    };
    let chars = crate::strutil::str_to_chars(v.as_str());
    let p = crate::strutil::str_to_chars("Bearer ");
    proof {
        reveal_strlit("Bearer ");
        assert(p@.len() == 7);
    }
    let n = chars.len();
    if n < 7 {
        proof {
            reveal_strlit("Bearer ");
        }
        return None;
    }
    let mut i: usize = 0;
    while i < 7
        invariant
            chars@.len() >= 7,
            chars@ == v@,
            header_of(headers_view(headers@), "authorization"@) == Some(v@),
            p@.len() == 7,
            p@ == "Bearer "@,
            i <= 7,
            forall|t: int| 0 <= t < i ==> chars@[t] == p@[t],
        decreases 7 - i,
    {
        if chars[i] != p[i] {
            proof {
                reveal_strlit("Bearer ");
                let pre = chars@.subrange(0, 7);
                assert(pre[i as int] == chars@[i as int]);
                assert(pre != "Bearer "@);
            }
            return None;
        }
        i = i + 1;
    }
    proof {
        assert(chars@.subrange(0, 7) =~= "Bearer "@);
    }
    let mut tok: Vec<char> = Vec::new();
    let mut k: usize = 7;
    while k < n
        invariant
            n == chars@.len(),
            7 <= k <= n,
            tok@ == chars@.subrange(7, k as int),
        decreases n - k,
    {
        tok.push(chars[k]);
        k = k + 1;
        assert(tok@ =~= chars@.subrange(7, k as int));
    }
    let t = crate::strutil::chars_to_string(&tok);
    proof {
        reveal_strlit("Bearer ");
        assert(chars@.subrange(0, 7) == "Bearer "@);
        assert(t@ =~= v@.subrange(7, v@.len() as int));
    }
    Some(t)
}

} // verus!
