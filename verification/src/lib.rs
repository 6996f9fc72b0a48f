//! A composable request-processing pipeline: a chain of middlewares around a
//! terminal handler, with a signed expiring token codec, request
//! interception, per-request access logging, and a rotating multi-channel
//! log sink. Middleware execution, the token format, every log line, and
//! the rotation decisions are verified; the process edge — clock, files,
//! threads, signatures — stays behind small audited boundaries.

pub mod b64;
pub mod claims;
pub mod http;
pub mod interceptor;
pub mod jsonesc;
pub mod jwt;
pub mod log;
pub mod logger;
pub mod pipeline;
pub mod res;
pub mod rotate;
pub mod strutil;
pub mod textfmt;
pub mod time;
pub mod token;
