//! The response envelope a middleware produces when it short-circuits: a
//! machine-readable status code and a human-readable message, optionally
//! with a data value. Constructors fix the status code of each outcome.

use vstd::prelude::*;

use crate::http::Response;
use vstd::string::StringExecFns;

verus! {

/// A structured result with a status code, a message, and optional data.
pub struct Res<T> {
    pub code: u16,
    pub msg: String,
    pub data: Option<T>,
}

impl<T> Res<T> {
    /// An envelope with the given code and message and no data.
    pub fn new(code: u16, msg: &str) -> (r: Res<T>)
        ensures
            r.code == code,
            r.msg@ == msg@,
            r.data is None,
    {
        Res { code, msg: String::from_str(msg), data: None }
    }

    /// An envelope with the given code, message, and data.
    pub fn new_data(code: u16, msg: &str, data: T) -> (r: Res<T>)
        ensures
            r.code == code,
            r.msg@ == msg@,
            r.data matches Some(d) && d == data,
    {
        Res { code, msg: String::from_str(msg), data: Some(data) }
    }

    /// 201: a resource was created.
    pub fn created(msg: &str) -> (r: Res<T>)
        ensures
            r.code == 201,
            r.msg@ == msg@,
            r.data is None,
    {
        Res::new(201, msg)
    }

    /// 200: success, with data.
    pub fn ok(data: T) -> (r: Res<T>)
        ensures
            r.code == 200,
            r.msg@ == "ok"@,
            r.data matches Some(d) && d == data,
    {
        Res::new_data(200, "ok", data)
    }

    /// 400: a bad request, with a message.
    pub fn error(msg: &str) -> (r: Res<T>)
        ensures
            r.code == 400,
            r.msg@ == msg@,
            r.data is None,
    {
        Res::new(400, msg)
    }

    /// 401: authentication failed; an empty message is replaced by the
    /// default wording.
    pub fn auth(msg: &str) -> (r: Res<T>)
        ensures
            r.code == 401,
            r.msg@ == (if msg@.len() == 0 {
                "authentication failed"@
            } else {
                msg@
            }),
            r.data is None,
    {
        if msg.is_empty() {
            Res::new(401, "authentication failed")
        } else {
            Res::new(401, msg)
        }
    }

    /// 401: the caller lacks the privilege for this request.
    pub fn privilege() -> (r: Res<T>)
        ensures
            r.code == 401,
            r.msg@ == "insufficient privilege"@,
            r.data is None,
    {
        Res::new(401, "insufficient privilege")
    }

    /// 422: data validation failed; an empty message is replaced by the
    /// default wording.
    pub fn validate_failed(msg: &str) -> (r: Res<T>)
        ensures
            r.code == 422,
            r.msg@ == (if msg@.len() == 0 {
                "validation failed"@
            } else {
                msg@
            }),
            r.data is None,
    {
        if msg.is_empty() {
            Res::new(422, "validation failed")
        } else {
            Res::new(422, msg)
        }
    }

    /// 422: data validation failed, with the offending details as data.
    pub fn validate_failed_data(data: T) -> (r: Res<T>)
        ensures
            r.code == 422,
            r.msg@ == "validation failed"@,
            r.data matches Some(d) && d == data,
    {
        Res::new_data(422, "validation failed", data)
    }

    /// 403: the request was refused by policy; an empty message is replaced
    /// by the default wording.
    pub fn reject(msg: &str) -> (r: Res<T>)
        ensures
            r.code == 403,
            r.msg@ == (if msg@.len() == 0 {
                "access denied"@
            } else {
                msg@
            }),
            r.data is None,
    {
        if msg.is_empty() {
            Res::new(403, "access denied")
        } else {
            Res::new(403, msg)
        }
    }

    /// 500: an internal failure.
    pub fn internal_error(msg: &str) -> (r: Res<T>)
        ensures
            r.code == 500,
            r.msg@ == msg@,
            r.data is None,
    {
        Res::new(500, msg)
    }

    /// The wire response for this envelope: its code as the status and its
    /// message as the body. (The JSON body shape is the application's
    /// concern; the pipeline's contract is the status and the message.)
    pub fn response(&self) -> (r: Response)
        ensures
            r@.status == self.code,
            r@.body == self.msg@,
            r@.headers.len() == 0,
    {
        let body = self.msg.clone();
        let r = Response { status: self.code, headers: Vec::new(), body };
        proof {
            assert(crate::http::headers_view(Seq::<(String, String)>::empty())
                =~= Seq::<(Seq<char>, Seq<char>)>::empty());
        }
        r
    }
}

} // verus!
