//! The access-logging middleware and its sink. Per request the middleware
//! captures method, path, peer, timing and the final status, and emits one
//! structured record; the sink consumes records with the same single-writer
//! rotation discipline as the leveled sink, against one path template.

use vstd::prelude::*;

use crate::log::{SinkAction, SinkActionV};
use crate::rotate::{resolve_template, resolve_path};
use crate::time::{timestamp_wf, timestamp_str, push_timestamp, Date, Timestamp};
use crate::textfmt::{dec_str, pad_left, pad_right, push_dec, push_str_chars, push_all,
    push_pad_left, push_pad_right};
use vstd::string::StringExecFns;

verus! {

/// One access record: who asked what, when, and how it ended.
pub struct AccessRecord {
    pub tag: String,
    pub begin: Timestamp,
    pub end: Timestamp,
    pub status: u16,
    pub ip: String,
    pub method: String,
    pub path: String,
    pub other: String,
}

/// What an `AccessRecord` is mathematically.
#[verifier::ext_equal]
pub struct AccessRecordV {
    pub tag: Seq<char>,
    pub begin: Timestamp,
    pub end: Timestamp,
    pub status: u16,
    pub ip: Seq<char>,
    pub method: Seq<char>,
    pub path: Seq<char>,
    pub other: Seq<char>,
}

impl View for AccessRecord {
    type V = AccessRecordV;

    open spec fn view(&self) -> AccessRecordV {
        AccessRecordV {
            tag: self.tag@,
            begin: self.begin,
            end: self.end,
            status: self.status,
            ip: self.ip@,
            method: self.method@,
            path: self.path@,
            other: self.other@,
        }
    }
}

/// Well-formed timing of a record: rendered fields in range, and the end
/// not before the beginning.
pub open spec fn access_wf(r: AccessRecordV) -> bool {
    &&& timestamp_wf(r.begin)
    &&& timestamp_wf(r.end)
    &&& r.begin.unix_millis <= r.end.unix_millis
}

/// The access-logging layer: its sink's path template and output switches.
pub struct Logger {
    /// The access-log path template, with date tokens.
    pub format: String,
    /// Whether records go to the console.
    pub stdout: bool,
    /// Whether records go to the per-day file.
    pub file_out: bool,
}

/// What a `Logger` is mathematically.
pub struct LoggerV {
    pub format: Seq<char>,
    pub stdout: bool,
    pub file_out: bool,
}

impl View for Logger {
    type V = LoggerV;

    open spec fn view(&self) -> LoggerV {
        LoggerV { format: self.format@, stdout: self.stdout, file_out: self.file_out }
    }
}

impl Logger {
    /// An access logger writing per-day files under `format`.
    pub fn new(format: &str, stdout: bool, file_out: bool) -> (r: Logger)
        ensures
            r@.format == format@,
            r@.stdout == stdout,
            r@.file_out == file_out,
    {
        Logger { format: String::from_str(format), stdout, file_out }
    }
}

impl Default for Logger {
    /// Console and file output on, files under `logs/access` by day.
    fn default() -> (r: Logger)
        ensures
            r@.format == "logs/access/%Y-%m-%d.log"@,
            r@.stdout,
            r@.file_out,
    {
        Logger::new("logs/access/%Y-%m-%d.log", true, true)
    }
}

/// The status class of a response: 2 for success, 4 and 5 for errors.
pub open spec fn status_class(status: u16) -> u16 {
    status / 100
}

/// The status class, for console colouring.
pub fn status_category(status: u16) -> (c: u16)
    ensures
        c == status_class(status),
{
    status / 100
}

/// The file line of a record:
/// `[begin] tag | status | elapsed | ip | method path other`, with the
/// elapsed time right-aligned to six, the peer to fifteen, and the method
/// left-aligned to six characters, newline-terminated.
pub open spec fn access_line(r: AccessRecordV) -> Seq<char> {
    seq!['['] + timestamp_str(r.begin) + "] "@ + r.tag + " | "@ + dec_str(r.status as int)
        + " | "@ + pad_left(dec_str(r.end.unix_millis - r.begin.unix_millis) + "ms"@, 6) + " | "@
        + pad_left(r.ip, 15) + " | "@ + pad_right(r.method, 6) + seq![' '] + r.path + seq![' ']
        + r.other + seq!['\n']
}

/// The console line: the same fields without the trailing newline.
pub open spec fn access_console_line(r: AccessRecordV) -> Seq<char> {
    access_line(r).drop_last()
}

/// Formats a record's file line.
pub fn format_access_line(r: &AccessRecord) -> (s: String)
    requires
        access_wf(r@),
    ensures
        s@ == access_line(r@),
{
    let mut out: Vec<char> = Vec::new();
    out.push('[');
    push_timestamp(&mut out, &r.begin);
    push_str_chars(&mut out, "] ");
    push_str_chars(&mut out, r.tag.as_str());
    push_str_chars(&mut out, " | ");
    push_dec(&mut out, r.status as u64);
    push_str_chars(&mut out, " | ");
    let mut el: Vec<char> = Vec::new();
    push_dec(&mut el, r.end.unix_millis - r.begin.unix_millis);
    push_str_chars(&mut el, "ms");
    push_pad_left(&mut out, &el, 6);
    push_str_chars(&mut out, " | ");
    let ip = crate::strutil::str_to_chars(r.ip.as_str());
    push_pad_left(&mut out, &ip, 15);
    push_str_chars(&mut out, " | ");
    let m = crate::strutil::str_to_chars(r.method.as_str());
    push_pad_right(&mut out, &m, 6);
    out.push(' ');
    push_str_chars(&mut out, r.path.as_str());
    out.push(' ');
    push_str_chars(&mut out, r.other.as_str());
    out.push('\n');
    assert(out@ =~= access_line(r@));
    crate::strutil::chars_to_string(&out)
}

/// The consumer's step on one access record: console first, then the
/// rotation decision against the record's own beginning day, then the
/// append to that day's file.
pub open spec fn access_step_spec(lg: LoggerV, open_date: Option<Date>, r: AccessRecordV) -> (
    Option<Date>,
    Seq<SinkActionV>,
) {
    let con = if lg.stdout {
        seq![SinkActionV::Console(access_console_line(r))]
    } else {
        Seq::<SinkActionV>::empty()
    };
    if lg.file_out {
        let rotate = open_date != Some(r.begin.date);
        let opens = if rotate {
            seq![SinkActionV::Open(resolve_template(lg.format, r.begin.date))]
        } else {
            Seq::<SinkActionV>::empty()
        };
        (
            Some(r.begin.date),
            con + opens + seq![
                SinkActionV::Append(resolve_template(lg.format, r.begin.date), access_line(r)),
            ],
        )
    } else {
        (open_date, con)
    }
}

/// Processing a queue of access records is the in-order fold of the step
/// function.
pub open spec fn run_access_sink(
    lg: LoggerV,
    open_date: Option<Date>,
    recs: Seq<AccessRecordV>,
    i: int,
) -> (Option<Date>, Seq<SinkActionV>)
    decreases recs.len() - i,
{
    if i < 0 || i >= recs.len() {
        (open_date, Seq::<SinkActionV>::empty())
    } else {
        let (st1, a1) = access_step_spec(lg, open_date, recs[i]);
        let (st2, rest) = run_access_sink(lg, st1, recs, i + 1);
        (st2, a1 + rest)
    }
}

/// The consumer's step on one record, appending the actions onto `out`.
pub fn access_sink_step_into(
    lg: &Logger,
    open_date: &mut Option<Date>,
    r: &AccessRecord,
    out: &mut Vec<SinkAction>,
)
    requires
        access_wf(r@),
    ensures
        *final(open_date) == access_step_spec(lg@, *old(open_date), r@).0,
        final(out)@.map_values(|a: SinkAction| a@) == old(out)@.map_values(|a: SinkAction| a@)
            + access_step_spec(lg@, *old(open_date), r@).1,
{
    if lg.stdout {
        let line = format_access_line(r);
        let chars = crate::strutil::str_to_chars(line.as_str());
        let n = chars.len();
        let mut con: Vec<char> = Vec::new();
        let mut i: usize = 0;
        proof {
            assert(access_line(r@).len() > 0);
        }
        while i + 1 < n
            invariant
                n == chars@.len(),
                i < n,
                con@ == chars@.subrange(0, i as int),
            decreases n - i,
        {
            con.push(chars[i]);
            i = i + 1;
            assert(con@ =~= chars@.subrange(0, i as int));
        }
        proof {
            assert(con@ =~= access_line(r@).drop_last());
        }
        out.push(SinkAction::Console(crate::strutil::chars_to_string(&con)));
    }
    if lg.file_out {
        let rotate = match open_date {
            Some(d) => !(*d == r.begin.date),
            None => true,
        };
        if rotate {
            out.push(SinkAction::Open(resolve_path(lg.format.as_str(), &r.begin.date)));
        }
        *open_date = Some(r.begin.date);
        out.push(
            SinkAction::Append(resolve_path(lg.format.as_str(), &r.begin.date), format_access_line(r)),
        );
    }
    proof {
        assert(out@.map_values(|a: SinkAction| a@) =~= old(out)@.map_values(|a: SinkAction| a@)
            + access_step_spec(lg@, *old(open_date), r@).1);
    }
}

/// The consumer's step on one record: the actions to perform, in order.
pub fn access_sink_step(lg: &Logger, open_date: &mut Option<Date>, r: &AccessRecord) -> (acts:
    Vec<SinkAction>)
    requires
        access_wf(r@),
    ensures
        *final(open_date) == access_step_spec(lg@, *old(open_date), r@).0,
        acts@.map_values(|a: SinkAction| a@) == access_step_spec(lg@, *old(open_date), r@).1,
{
    let mut acts: Vec<SinkAction> = Vec::new();
    proof {
        assert(acts@.map_values(|a: SinkAction| a@) =~= Seq::<SinkActionV>::empty());
    }
    access_sink_step_into(lg, open_date, r, &mut acts);
    proof {
        assert(acts@.map_values(|a: SinkAction| a@) =~= access_step_spec(
            lg@,
            *old(open_date),
            r@,
        ).1);
    }
    acts
}

/// Drains a queue of access records in first-in first-out order.
pub fn access_sink_drain(lg: &Logger, open_date: &mut Option<Date>, recs: &Vec<AccessRecord>)
    -> (acts: Vec<SinkAction>)
    requires
        forall|k: int| 0 <= k < recs@.len() ==> access_wf((#[trigger] recs@[k])@),
    ensures
        *final(open_date) == run_access_sink(
            lg@,
            *old(open_date),
            recs@.map_values(|r: AccessRecord| r@),
            0,
        ).0,
        acts@.map_values(|a: SinkAction| a@) == run_access_sink(
            lg@,
            *old(open_date),
            recs@.map_values(|r: AccessRecord| r@),
            0,
        ).1,
{
    let ghost rv = recs@.map_values(|r: AccessRecord| r@);
    let ghost st0 = *open_date;
    let n = recs.len();
    let mut acts: Vec<SinkAction> = Vec::new();
    let mut i: usize = 0;
    proof {
        assert(acts@.map_values(|a: SinkAction| a@) =~= Seq::<SinkActionV>::empty());
    }
    while i < n
        invariant
            rv == recs@.map_values(|r: AccessRecord| r@),
            forall|k: int| 0 <= k < recs@.len() ==> access_wf((#[trigger] recs@[k])@),
            n == recs@.len(),
            i <= n,
            run_access_sink(lg@, st0, rv, 0).0 == run_access_sink(lg@, *open_date, rv, i as int).0,
            run_access_sink(lg@, st0, rv, 0).1 == acts@.map_values(|a: SinkAction| a@)
                + run_access_sink(lg@, *open_date, rv, i as int).1,
        decreases n - i,
    {
        proof {
            assert(rv[i as int] == recs@[i as int]@);
            assert(access_wf(recs@[i as int]@));
        }
        let ghost st_before = *open_date;
        let ghost base = acts@.map_values(|a: SinkAction| a@);
        access_sink_step_into(lg, open_date, &recs[i], &mut acts);
        i = i + 1;
        proof {
            let sv = access_step_spec(lg@, st_before, rv[i as int - 1]).1;
            assert(run_access_sink(lg@, st_before, rv, i as int - 1).1 == sv + run_access_sink(
                lg@,
                *open_date,
                rv,
                i as int,
            ).1);
            assert(base + (sv + run_access_sink(lg@, *open_date, rv, i as int).1) =~= (base + sv)
                + run_access_sink(lg@, *open_date, rv, i as int).1);
        }
    }
    proof {
        assert(run_access_sink(lg@, *open_date, rv, n as int).1 =~= Seq::<SinkActionV>::empty());
        assert(acts@.map_values(|a: SinkAction| a@) + Seq::<SinkActionV>::empty()
            =~= acts@.map_values(|a: SinkAction| a@));
    }
    acts
}

/// The append an access record causes: its line, to the file of its own
/// beginning day.
pub open spec fn access_append_of(lg: LoggerV, r: AccessRecordV) -> SinkActionV {
    SinkActionV::Append(resolve_template(lg.format, r.begin.date), access_line(r))
}

/// One step's appends are exactly the record's own append.
proof fn lemma_access_step_appends(lg: LoggerV, st: Option<Date>, r: AccessRecordV)
    requires
        lg.file_out,
    ensures
        crate::log::appends_in(access_step_spec(lg, st, r).1) == seq![access_append_of(lg, r)],
{
    let con = if lg.stdout {
        seq![SinkActionV::Console(access_console_line(r))]
    } else {
        Seq::<SinkActionV>::empty()
    };
    let rotate = st != Some(r.begin.date);
    let opens = if rotate {
        seq![SinkActionV::Open(resolve_template(lg.format, r.begin.date))]
    } else {
        Seq::<SinkActionV>::empty()
    };
    let tail = seq![access_append_of(lg, r)];
    crate::log::lemma_appends_in_add(con + opens, tail);
    assert(access_step_spec(lg, st, r).1 == (con + opens) + tail);
    assert(crate::log::appends_in(tail) =~= tail) by {
        assert(tail.skip(1) =~= Seq::<SinkActionV>::empty());
        assert(seq![tail[0]] + crate::log::appends_in(tail.skip(1)) =~= tail);
    }
    assert(crate::log::appends_in(con + opens) =~= Seq::<SinkActionV>::empty()) by {
        crate::log::lemma_appends_in_add(con, opens);
        assert(crate::log::appends_in(con) =~= Seq::<SinkActionV>::empty()) by {
            if lg.stdout {
                assert(con.skip(1) =~= Seq::<SinkActionV>::empty());
                assert(crate::log::appends_in(con) == crate::log::appends_in(con.skip(1)));
                assert(crate::log::appends_in(con.skip(1)) =~= Seq::<SinkActionV>::empty());
            }
        }
        assert(crate::log::appends_in(opens) =~= Seq::<SinkActionV>::empty()) by {
            if rotate {
                assert(opens.skip(1) =~= Seq::<SinkActionV>::empty());
                assert(crate::log::appends_in(opens) == crate::log::appends_in(opens.skip(1)));
                assert(crate::log::appends_in(opens.skip(1)) =~= Seq::<SinkActionV>::empty());
            }
        }
    }
    assert(crate::log::appends_in(access_step_spec(lg, st, r).1) =~= tail);
}

/// First-in, first-out, uncorrupted: what reaches the access-log files
/// from a queue of records is exactly one complete line per record, in
/// enqueue order, each line in the file of its own beginning day.
pub proof fn lemma_access_fifo_appends(
    lg: LoggerV,
    st: Option<Date>,
    recs: Seq<AccessRecordV>,
    i: int,
)
    requires
        lg.file_out,
        0 <= i <= recs.len(),
    ensures
        crate::log::appends_in(run_access_sink(lg, st, recs, i).1) == Seq::new(
            (recs.len() - i) as nat,
            |k: int| access_append_of(lg, recs[i + k]),
        ),
    decreases recs.len() - i,
{
    if i == recs.len() {
        assert(crate::log::appends_in(run_access_sink(lg, st, recs, i).1) =~= Seq::new(
            0nat,
            |k: int| access_append_of(lg, recs[i + k]),
        ));
    } else {
        let (st1, a1) = access_step_spec(lg, st, recs[i]);
        lemma_access_fifo_appends(lg, st1, recs, i + 1);
        lemma_access_step_appends(lg, st, recs[i]);
        crate::log::lemma_appends_in_add(a1, run_access_sink(lg, st1, recs, i + 1).1);
        assert(crate::log::appends_in(run_access_sink(lg, st, recs, i).1) =~= Seq::new(
            (recs.len() - i) as nat,
            |k: int| access_append_of(lg, recs[i + k]),
        ));
    }
}

/// Each access record lands in its own beginning day's file, as one
/// complete newline-terminated line, and nothing else is appended.
pub proof fn lemma_access_own_day(lg: LoggerV, open_date: Option<Date>, r: AccessRecordV)
    requires
        lg.file_out,
    ensures
        ({
            let acts = access_step_spec(lg, open_date, r).1;
            &&& acts.len() >= 1
            &&& acts.last() == SinkActionV::Append(
                resolve_template(lg.format, r.begin.date),
                access_line(r),
            )
            &&& forall|k: int| 0 <= k < acts.len() - 1 ==> !(#[trigger] acts[k] is Append)
            &&& access_line(r).last() == '\n'
        }),
        access_step_spec(lg, open_date, r).0 == Some(r.begin.date),
{
    let acts = access_step_spec(lg, open_date, r).1;
    assert(access_line(r).last() == '\n');
    assert forall|k: int| 0 <= k < acts.len() - 1 implies !(#[trigger] acts[k] is Append) by {
        let con = if lg.stdout {
            seq![SinkActionV::Console(access_console_line(r))]
        } else {
            Seq::<SinkActionV>::empty()
        };
        let rotate = open_date != Some(r.begin.date);
        let opens = if rotate {
            seq![SinkActionV::Open(resolve_template(lg.format, r.begin.date))]
        } else {
            Seq::<SinkActionV>::empty()
        };
        if k < con.len() {
            assert(acts[k] == con[k]);
        } else {
            assert(acts[k] == opens[k - con.len()]);
        }
    }
}

} // verus!
