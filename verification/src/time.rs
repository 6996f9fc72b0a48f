//! Plain-value timestamps. The library never asks the machine for the time:
//! callers hand in instants as epoch milliseconds together with the local
//! calendar fields they were rendered to, and everything downstream — day
//! rotation, log-line formatting, token expiry — is verified over these
//! plain values.

use vstd::prelude::*;

use crate::textfmt::{pad2, pad4, push_pad2, push_pad4};

verus! {

/// A calendar day in the local time zone.
#[derive(Clone, Copy, Debug, PartialEq, Eq, Structural)]
pub struct Date {
    pub year: u16,
    pub month: u8,
    pub day: u8,
}

/// An instant: epoch milliseconds plus its local calendar rendering.
#[derive(Clone, Copy, Debug, PartialEq, Eq, Structural)]
pub struct Timestamp {
    pub unix_millis: u64,
    pub date: Date,
    pub hour: u8,
    pub minute: u8,
    pub second: u8,
}

/// The field ranges of a well-formed calendar day.
pub open spec fn date_wf(d: Date) -> bool {
    &&& d.year < 10000
    &&& 1 <= d.month <= 12
    &&& 1 <= d.day <= 31
}

/// The field ranges of a well-formed instant.
pub open spec fn timestamp_wf(t: Timestamp) -> bool {
    &&& date_wf(t.date)
    &&& t.hour < 24
    &&& t.minute < 60
    &&& t.second < 60
}

/// `YYYY-MM-DD`.
pub open spec fn date_str(d: Date) -> Seq<char> {
    pad4(d.year as int) + seq!['-'] + pad2(d.month as int) + seq!['-'] + pad2(d.day as int)
}

/// `YYYY-MM-DD HH:MM:SS`, the stamp every log line opens with.
pub open spec fn timestamp_str(t: Timestamp) -> Seq<char> {
    date_str(t.date) + seq![' '] + pad2(t.hour as int) + seq![':'] + pad2(t.minute as int)
        + seq![':'] + pad2(t.second as int)
}

/// Whole milliseconds elapsed from `a` to `b`.
pub open spec fn elapsed_millis(a: Timestamp, b: Timestamp) -> int {
    b.unix_millis - a.unix_millis
}

/// Appends `YYYY-MM-DD`.
pub fn push_date(out: &mut Vec<char>, d: &Date)
    requires
        date_wf(*d),
    ensures
        final(out)@ == old(out)@ + date_str(*d),
{
    push_pad4(out, d.year);
    out.push('-');
    push_pad2(out, d.month);
    out.push('-');
    push_pad2(out, d.day);
    assert(out@ =~= old(out)@ + date_str(*d));
}

/// Appends `YYYY-MM-DD HH:MM:SS`.
pub fn push_timestamp(out: &mut Vec<char>, t: &Timestamp)
    requires
        timestamp_wf(*t),
    ensures
        final(out)@ == old(out)@ + timestamp_str(*t),
{
    push_date(out, &t.date);
    out.push(' ');
    push_pad2(out, t.hour);
    out.push(':');
    push_pad2(out, t.minute);
    out.push(':');
    push_pad2(out, t.second);
    assert(out@ =~= old(out)@ + timestamp_str(*t));
}

} // verus!
