//! The leveled log sink: a single sequential consumer owns the files, so
//! writes and calendar-day rotation need no locks. The consumer's whole
//! behaviour is the pure step function here — for each record it decides
//! what to print, when to reopen the day's file set, and which file gets
//! the line; performing those actions is the embedding application's part.
//!
//! Records drain strictly in enqueue order: processing a queue is the
//! in-order fold of this step function, so the file contents are the
//! records' lines in first-in first-out order, one complete
//! newline-terminated line per record.

use vstd::prelude::*;

use crate::rotate::{resolve_template, resolve_path};
use crate::time::{timestamp_wf, timestamp_str, push_timestamp, Date, Timestamp};
use crate::textfmt::{pad_right, push_str_chars, push_all};
use vstd::string::StringExecFns;

verus! {

/// The severity of a leveled record, one file channel each.
#[derive(Clone, Copy, Debug, PartialEq, Eq, Structural)]
pub enum Level {
    DEBUG,
    INFO,
    WARN,
    ERROR,
}

/// The sink's configuration: where each channel's file lives (a path
/// template with date tokens), and which outputs are on.
#[derive(Clone)]
pub struct LogConfig {
    /// Whether lines go to the per-day files.
    pub file_out: bool,
    /// Whether lines go to the console.
    pub stdout: bool,
    /// Path template of the `DEBUG` channel.
    pub debug_dir: String,
    /// Path template of the `INFO` channel.
    pub info_dir: String,
    /// Path template of the `WARN` channel.
    pub warn_dir: String,
    /// Path template of the `ERROR` channel.
    pub error_dir: String,
}

/// What a `LogConfig` is mathematically.
pub struct LogConfigV {
    pub file_out: bool,
    pub stdout: bool,
    pub debug_dir: Seq<char>,
    pub info_dir: Seq<char>,
    pub warn_dir: Seq<char>,
    pub error_dir: Seq<char>,
}

impl View for LogConfig {
    type V = LogConfigV;

    open spec fn view(&self) -> LogConfigV {
        LogConfigV {
            file_out: self.file_out,
            stdout: self.stdout,
            debug_dir: self.debug_dir@,
            info_dir: self.info_dir@,
            warn_dir: self.warn_dir@,
            error_dir: self.error_dir@,
        }
    }
}

/// One leveled record: severity, text, call site, and when it was made.
pub struct LogRecord {
    pub level: Level,
    pub msg: String,
    pub location: String,
    pub time: Timestamp,
}

/// What a `LogRecord` is mathematically.
pub struct LogRecordV {
    pub level: Level,
    pub msg: Seq<char>,
    pub location: Seq<char>,
    pub time: Timestamp,
}

impl View for LogRecord {
    type V = LogRecordV;

    open spec fn view(&self) -> LogRecordV {
        LogRecordV {
            level: self.level,
            msg: self.msg@,
            location: self.location@,
            time: self.time,
        }
    }
}

/// A leveled record from its parts.
pub fn make_record(level: Level, msg: &str, location: &str, time: Timestamp) -> (r: LogRecord)
    ensures
        r@.level == level,
        r@.msg == msg@,
        r@.location == location@,
        r@.time == time,
{
    LogRecord {
        level,
        msg: String::from_str(msg),
        location: String::from_str(location),
        time,
    }
}

/// The channel's name.
pub open spec fn level_label(l: Level) -> Seq<char> {
    match l {
        Level::DEBUG => "DEBUG"@,
        Level::INFO => "INFO"@,
        Level::WARN => "WARN"@,
        Level::ERROR => "ERROR"@,
    }
}

/// The channel's path template in a configuration.
pub open spec fn dir_of(cfg: LogConfigV, l: Level) -> Seq<char> {
    match l {
        Level::DEBUG => cfg.debug_dir,
        Level::INFO => cfg.info_dir,
        Level::WARN => cfg.warn_dir,
        Level::ERROR => cfg.error_dir,
    }
}

/// The file line of a record: `[timestamp] [LEVEL  ] location message`,
/// newline-terminated.
pub open spec fn leveled_line(r: LogRecordV) -> Seq<char> {
    seq!['['] + timestamp_str(r.time) + "] ["@ + pad_right(level_label(r.level), 7) + "] "@
        + r.location + seq![' '] + r.msg + seq!['\n']
}

/// The console line of a record: the same fields without the trailing
/// newline and with the level in brackets.
pub open spec fn console_line(r: LogRecordV) -> Seq<char> {
    seq!['['] + timestamp_str(r.time) + "] ["@ + level_label(r.level) + "] "@ + r.location
        + seq![' '] + r.msg
}

/// One output the consumer must perform, in order.
pub enum SinkAction {
    /// Print this line on the console.
    Console(String),
    /// Open (create-if-absent, append) this day file, creating parents.
    Open(String),
    /// Append this line to the file at this path.
    Append(String, String),
}

/// What a `SinkAction` is mathematically.
pub enum SinkActionV {
    Console(Seq<char>),
    Open(Seq<char>),
    Append(Seq<char>, Seq<char>),
}

impl View for SinkAction {
    type V = SinkActionV;

    open spec fn view(&self) -> SinkActionV {
        match self {
            SinkAction::Console(s) => SinkActionV::Console(s@),
            SinkAction::Open(p) => SinkActionV::Open(p@),
            SinkAction::Append(p, l) => SinkActionV::Append(p@, l@),
        }
    }
}

/// The open actions of a rotation: one file per channel, resolved against
/// the new day.
pub open spec fn open_actions(cfg: LogConfigV, d: Date) -> Seq<SinkActionV> {
    seq![
        SinkActionV::Open(resolve_template(cfg.debug_dir, d)),
        SinkActionV::Open(resolve_template(cfg.info_dir, d)),
        SinkActionV::Open(resolve_template(cfg.warn_dir, d)),
        SinkActionV::Open(resolve_template(cfg.error_dir, d)),
    ]
}

/// The consumer's step: what one record makes it do, and the day its file
/// set belongs to afterwards. Console output first; then, when the
/// record's calendar day differs from the open file set's, the rotation;
/// then the record's line appended to its channel's file for the record's
/// own day.
pub open spec fn step_spec(cfg: LogConfigV, open_date: Option<Date>, r: LogRecordV) -> (
    Option<Date>,
    Seq<SinkActionV>,
) {
    let con = if cfg.stdout {
        seq![SinkActionV::Console(console_line(r))]
    } else {
        Seq::<SinkActionV>::empty()
    };
    if cfg.file_out {
        let rotate = open_date != Some(r.time.date);
        let opens = if rotate {
            open_actions(cfg, r.time.date)
        } else {
            Seq::<SinkActionV>::empty()
        };
        (
            Some(r.time.date),
            con + opens + seq![
                SinkActionV::Append(
                    resolve_template(dir_of(cfg, r.level), r.time.date),
                    leveled_line(r),
                ),
            ],
        )
    } else {
        (open_date, con)
    }
}

/// Processing a queue is the in-order fold of the step function: first-in,
/// first-out, one record at a time.
pub open spec fn run_sink(
    cfg: LogConfigV,
    open_date: Option<Date>,
    recs: Seq<LogRecordV>,
    i: int,
) -> (Option<Date>, Seq<SinkActionV>)
    decreases recs.len() - i,
{
    if i < 0 || i >= recs.len() {
        (open_date, Seq::<SinkActionV>::empty())
    } else {
        let (st1, a1) = step_spec(cfg, open_date, recs[i]);
        let (st2, rest) = run_sink(cfg, st1, recs, i + 1);
        (st2, a1 + rest)
    }
}

/// Formats a record's file line.
pub fn format_leveled_line(r: &LogRecord) -> (s: String)
    requires
        timestamp_wf(r.time),
    ensures
        s@ == leveled_line(r@),
{
    let mut out: Vec<char> = Vec::new();
    out.push('[');
    push_timestamp(&mut out, &r.time);
    push_str_chars(&mut out, "] [");
    push_label7(&mut out, r.level);
    push_str_chars(&mut out, "] ");
    push_str_chars(&mut out, r.location.as_str());
    out.push(' ');
    push_str_chars(&mut out, r.msg.as_str());
    out.push('\n');
    assert(out@ =~= leveled_line(r@));
    crate::strutil::chars_to_string(&out)
}

/// Formats a record's console line.
pub fn format_console_line(r: &LogRecord) -> (s: String)
    requires
        timestamp_wf(r.time),
    ensures
        s@ == console_line(r@),
{
    let mut out: Vec<char> = Vec::new();
    out.push('[');
    push_timestamp(&mut out, &r.time);
    push_str_chars(&mut out, "] [");
    match r.level {
        Level::DEBUG => push_str_chars(&mut out, "DEBUG"),
        Level::INFO => push_str_chars(&mut out, "INFO"),
        Level::WARN => push_str_chars(&mut out, "WARN"),
        Level::ERROR => push_str_chars(&mut out, "ERROR"),
    }
    push_str_chars(&mut out, "] ");
    push_str_chars(&mut out, r.location.as_str());
    out.push(' ');
    push_str_chars(&mut out, r.msg.as_str());
    assert(out@ =~= console_line(r@));
    crate::strutil::chars_to_string(&out)
}

/// Appends the channel name padded to seven characters.
fn push_label7(out: &mut Vec<char>, l: Level)
    ensures
        final(out)@ == old(out)@ + pad_right(level_label(l), 7),
{
    match l {
        Level::DEBUG => push_str_chars(out, "DEBUG  "),
        Level::INFO => push_str_chars(out, "INFO   "),
        Level::WARN => push_str_chars(out, "WARN   "),
        Level::ERROR => push_str_chars(out, "ERROR  "),
    }
    proof {
        reveal_strlit("DEBUG");
        reveal_strlit("INFO");
        reveal_strlit("WARN");
        reveal_strlit("ERROR");
        reveal_strlit("DEBUG  ");
        reveal_strlit("INFO   ");
        reveal_strlit("WARN   ");
        reveal_strlit("ERROR  ");
        assert(crate::textfmt::spaces(0) =~= Seq::<char>::empty());
        assert(crate::textfmt::spaces(1) =~= seq![' ']);
        assert(crate::textfmt::spaces(2) =~= seq![' ', ' ']);
        assert(crate::textfmt::spaces(3) =~= seq![' ', ' ', ' ']);
        match l {
            Level::DEBUG => {
                assert("DEBUG  "@ =~= pad_right("DEBUG"@, 7));
            },
            Level::INFO => {
                assert("INFO   "@ =~= pad_right("INFO"@, 7));
            },
            Level::WARN => {
                assert("WARN   "@ =~= pad_right("WARN"@, 7));
            },
            Level::ERROR => {
                assert("ERROR  "@ =~= pad_right("ERROR"@, 7));
            },
        }
        assert(out@ =~= old(out)@ + pad_right(level_label(l), 7));
    }
}

/// Resolves the channel's file path for a day.
fn channel_path(cfg: &LogConfig, l: Level, d: &Date) -> (p: String)
    requires
        crate::time::date_wf(*d),
    ensures
        p@ == resolve_template(dir_of(cfg@, l), *d),
{
    match l {
        Level::DEBUG => resolve_path(cfg.debug_dir.as_str(), d),
        Level::INFO => resolve_path(cfg.info_dir.as_str(), d),
        Level::WARN => resolve_path(cfg.warn_dir.as_str(), d),
        Level::ERROR => resolve_path(cfg.error_dir.as_str(), d),
    }
}

/// The consumer's step on one record, appending the actions to perform,
/// in order, onto `out`, and advancing the open-file-set day.
pub fn sink_step_into(
    cfg: &LogConfig,
    open_date: &mut Option<Date>,
    r: &LogRecord,
    out: &mut Vec<SinkAction>,
)
    requires
        timestamp_wf(r.time),
    ensures
        *final(open_date) == step_spec(cfg@, *old(open_date), r@).0,
        final(out)@.map_values(|a: SinkAction| a@) == old(out)@.map_values(|a: SinkAction| a@)
            + step_spec(cfg@, *old(open_date), r@).1,
{
    if cfg.stdout {
        out.push(SinkAction::Console(format_console_line(r)));
    }
    if cfg.file_out {
        let rotate = match open_date {
            Some(d) => !(*d == r.time.date),
            None => true,
        };
        if rotate {
            out.push(SinkAction::Open(resolve_path(cfg.debug_dir.as_str(), &r.time.date)));
            out.push(SinkAction::Open(resolve_path(cfg.info_dir.as_str(), &r.time.date)));
            out.push(SinkAction::Open(resolve_path(cfg.warn_dir.as_str(), &r.time.date)));
            out.push(SinkAction::Open(resolve_path(cfg.error_dir.as_str(), &r.time.date)));
        }
        *open_date = Some(r.time.date);
        out.push(
            SinkAction::Append(channel_path(cfg, r.level, &r.time.date), format_leveled_line(r)),
        );
    }
    proof {
        assert(out@.map_values(|a: SinkAction| a@) =~= old(out)@.map_values(|a: SinkAction| a@)
            + step_spec(cfg@, *old(open_date), r@).1);
    }
}

/// The consumer's step on one record: returns the actions to perform, in
/// order, and advances the open-file-set day.
pub fn sink_step(cfg: &LogConfig, open_date: &mut Option<Date>, r: &LogRecord) -> (acts: Vec<
    SinkAction,
>)
    requires
        timestamp_wf(r.time),
    ensures
        *final(open_date) == step_spec(cfg@, *old(open_date), r@).0,
        acts@.map_values(|a: SinkAction| a@) == step_spec(cfg@, *old(open_date), r@).1,
{
    let mut acts: Vec<SinkAction> = Vec::new();
    proof {
        assert(acts@.map_values(|a: SinkAction| a@) =~= Seq::<SinkActionV>::empty());
    }
    sink_step_into(cfg, open_date, r, &mut acts);
    proof {
        assert(acts@.map_values(|a: SinkAction| a@) =~= step_spec(cfg@, *old(open_date), r@).1);
    }
    acts
}

/// Drains a queue of records in first-in first-out order, performing one
/// step per record: exactly the actions [`run_sink`] prescribes, in that
/// order.
pub fn sink_drain(cfg: &LogConfig, open_date: &mut Option<Date>, recs: &Vec<LogRecord>) -> (acts:
    Vec<SinkAction>)
    requires
        forall|k: int| 0 <= k < recs@.len() ==> timestamp_wf((#[trigger] recs@[k]).time),
    ensures
        *final(open_date) == run_sink(
            cfg@,
            *old(open_date),
            recs@.map_values(|r: LogRecord| r@),
            0,
        ).0,
        acts@.map_values(|a: SinkAction| a@) == run_sink(
            cfg@,
            *old(open_date),
            recs@.map_values(|r: LogRecord| r@),
            0,
        ).1,
{
    let ghost rv = recs@.map_values(|r: LogRecord| r@);
    let ghost st0 = *open_date;
    let n = recs.len();
    let mut acts: Vec<SinkAction> = Vec::new();
    let mut i: usize = 0;
    proof {
        assert(acts@.map_values(|a: SinkAction| a@) =~= Seq::<SinkActionV>::empty());
    }
    while i < n
        invariant
            rv == recs@.map_values(|r: LogRecord| r@),
            forall|k: int| 0 <= k < recs@.len() ==> timestamp_wf((#[trigger] recs@[k]).time),
            n == recs@.len(),
            i <= n,
            run_sink(cfg@, st0, rv, 0).0 == run_sink(cfg@, *open_date, rv, i as int).0,
            run_sink(cfg@, st0, rv, 0).1 == acts@.map_values(|a: SinkAction| a@) + run_sink(
                cfg@,
                *open_date,
                rv,
                i as int,
            ).1,
        decreases n - i,
    {
        proof {
            assert(rv[i as int] == recs@[i as int]@);
            assert(timestamp_wf(recs@[i as int].time));
        }
        let ghost st_before = *open_date;
        let ghost base = acts@.map_values(|a: SinkAction| a@);
        sink_step_into(cfg, open_date, &recs[i], &mut acts);
        i = i + 1;
        proof {
            let sv = step_spec(cfg@, st_before, rv[i as int - 1]).1;
            assert(run_sink(cfg@, st_before, rv, i as int - 1).1 == sv + run_sink(
                cfg@,
                *open_date,
                rv,
                i as int,
            ).1);
            assert(base + (sv + run_sink(cfg@, *open_date, rv, i as int).1) =~= (base + sv)
                + run_sink(cfg@, *open_date, rv, i as int).1);
        }
    }
    proof {
        assert(run_sink(cfg@, *open_date, rv, n as int).1 =~= Seq::<SinkActionV>::empty());
        assert(acts@.map_values(|a: SinkAction| a@) + Seq::<SinkActionV>::empty()
            =~= acts@.map_values(|a: SinkAction| a@));
    }
    acts
}

/// The file-append actions among a list of actions, in order.
pub open spec fn appends_in(s: Seq<SinkActionV>) -> Seq<SinkActionV>
    decreases s.len(),
{
    if s.len() == 0 {
        Seq::<SinkActionV>::empty()
    } else if s[0] is Append {
        seq![s[0]] + appends_in(s.skip(1))
    } else {
        appends_in(s.skip(1))
    }
}

/// Splitting a list of actions splits its appends.
pub proof fn lemma_appends_in_add(a: Seq<SinkActionV>, b: Seq<SinkActionV>)
    ensures
        appends_in(a + b) == appends_in(a) + appends_in(b),
    decreases a.len(),
{
    if a.len() == 0 {
        assert(a + b =~= b);
        assert(appends_in(a) + appends_in(b) =~= appends_in(b));
    } else {
        lemma_appends_in_add(a.skip(1), b);
        assert((a + b).skip(1) =~= a.skip(1) + b);
        assert((a + b)[0] == a[0]);
        if a[0] is Append {
            assert(appends_in(a + b) =~= appends_in(a) + appends_in(b));
        } else {
            assert(appends_in(a + b) =~= appends_in(a) + appends_in(b));
        }
    }
}

/// The append a record causes: its line, to its channel's file for its
/// own day.
pub open spec fn append_of(cfg: LogConfigV, r: LogRecordV) -> SinkActionV {
    SinkActionV::Append(resolve_template(dir_of(cfg, r.level), r.time.date), leveled_line(r))
}

/// One step's appends are exactly the record's own append.
proof fn lemma_step_appends(cfg: LogConfigV, st: Option<Date>, r: LogRecordV)
    requires
        cfg.file_out,
    ensures
        appends_in(step_spec(cfg, st, r).1) == seq![append_of(cfg, r)],
{
    let con = if cfg.stdout {
        seq![SinkActionV::Console(console_line(r))]
    } else {
        Seq::<SinkActionV>::empty()
    };
    let rotate = st != Some(r.time.date);
    let opens = if rotate {
        open_actions(cfg, r.time.date)
    } else {
        Seq::<SinkActionV>::empty()
    };
    let tail = seq![append_of(cfg, r)];
    lemma_appends_in_add(con + opens, tail);
    assert(step_spec(cfg, st, r).1 == (con + opens) + tail);
    assert(appends_in(tail) =~= tail) by {
        assert(tail.skip(1) =~= Seq::<SinkActionV>::empty());
        assert(seq![tail[0]] + appends_in(tail.skip(1)) =~= tail);
    }
    assert(appends_in(con + opens) =~= Seq::<SinkActionV>::empty()) by {
        lemma_appends_in_add(con, opens);
        assert(appends_in(con) =~= Seq::<SinkActionV>::empty()) by {
            if cfg.stdout {
                assert(con.skip(1) =~= Seq::<SinkActionV>::empty());
                assert(appends_in(con) == appends_in(con.skip(1)));
                assert(appends_in(con.skip(1)) =~= Seq::<SinkActionV>::empty());
            }
        }
        assert(appends_in(opens) =~= Seq::<SinkActionV>::empty()) by {
            if rotate {
                let o1 = opens.skip(1);
                let o2 = o1.skip(1);
                let o3 = o2.skip(1);
                let o4 = o3.skip(1);
                assert(opens.len() == 4);
                assert(!(opens[0] is Append) && !(o1[0] is Append) && !(o2[0] is Append) && !(
                o3[0] is Append));
                assert(o4 =~= Seq::<SinkActionV>::empty());
                assert(appends_in(opens) == appends_in(o1));
                assert(appends_in(o1) == appends_in(o2));
                assert(appends_in(o2) == appends_in(o3));
                assert(appends_in(o3) == appends_in(o4));
                assert(appends_in(o4) =~= Seq::<SinkActionV>::empty());
            }
        }
    }
    assert(appends_in(step_spec(cfg, st, r).1) =~= tail);
}

/// First-in, first-out, uncorrupted: what reaches the files from a queue
/// of records is exactly one complete line per record, in enqueue order,
/// each line in its own record's day file — whatever console output and
/// rotations happen in between, and wherever the day boundaries fall.
pub proof fn lemma_fifo_appends(
    cfg: LogConfigV,
    st: Option<Date>,
    recs: Seq<LogRecordV>,
    i: int,
)
    requires
        cfg.file_out,
        0 <= i <= recs.len(),
    ensures
        appends_in(run_sink(cfg, st, recs, i).1) == Seq::new(
            (recs.len() - i) as nat,
            |k: int| append_of(cfg, recs[i + k]),
        ),
    decreases recs.len() - i,
{
    if i == recs.len() {
        assert(appends_in(run_sink(cfg, st, recs, i).1) =~= Seq::new(
            0nat,
            |k: int| append_of(cfg, recs[i + k]),
        ));
    } else {
        let (st1, a1) = step_spec(cfg, st, recs[i]);
        lemma_fifo_appends(cfg, st1, recs, i + 1);
        lemma_step_appends(cfg, st, recs[i]);
        lemma_appends_in_add(a1, run_sink(cfg, st1, recs, i + 1).1);
        assert(appends_in(run_sink(cfg, st, recs, i).1) =~= Seq::new(
            (recs.len() - i) as nat,
            |k: int| append_of(cfg, recs[i + k]),
        ));
    }
}

/// Each record lands in its own day's file: with file output on, the step
/// emits exactly one append, to the record's channel's path resolved
/// against the record's own calendar day, and the line is the record's
/// complete newline-terminated rendering.
pub proof fn lemma_record_lands_in_own_day(cfg: LogConfigV, open_date: Option<Date>, r: LogRecordV)
    requires
        cfg.file_out,
    ensures
        ({
            let acts = step_spec(cfg, open_date, r).1;
            &&& acts.len() >= 1
            &&& acts.last() == SinkActionV::Append(
                resolve_template(dir_of(cfg, r.level), r.time.date),
                leveled_line(r),
            )
            &&& forall|k: int| 0 <= k < acts.len() - 1 ==> !(#[trigger] acts[k] is Append)
            &&& leveled_line(r).last() == '\n'
        }),
        step_spec(cfg, open_date, r).0 == Some(r.time.date),
{
    let acts = step_spec(cfg, open_date, r).1;
    assert(leveled_line(r).last() == '\n');
    assert forall|k: int| 0 <= k < acts.len() - 1 implies !(#[trigger] acts[k] is Append) by {
        let con = if cfg.stdout {
            seq![SinkActionV::Console(console_line(r))]
        } else {
            Seq::<SinkActionV>::empty()
        };
        let rotate = open_date != Some(r.time.date);
        let opens = if rotate {
            open_actions(cfg, r.time.date)
        } else {
            Seq::<SinkActionV>::empty()
        };
        if k < con.len() {
            assert(acts[k] == con[k]);
        } else {
            assert(acts[k] == opens[k - con.len()]);
        }
    }
}

/// Across a day boundary the sink rotates: a record of a new day reopens
/// the file set for that day and appends there; a record of the same day
/// appends to the already-open set without reopening.
pub proof fn lemma_day_boundary(
    cfg: LogConfigV,
    open_date: Option<Date>,
    r1: LogRecordV,
    r2: LogRecordV,
)
    requires
        cfg.file_out,
    ensures
        ({
            let (st1, a1) = step_spec(cfg, open_date, r1);
            let (st2, a2) = step_spec(cfg, st1, r2);
            &&& a1.last() == SinkActionV::Append(
                resolve_template(dir_of(cfg, r1.level), r1.time.date),
                leveled_line(r1),
            )
            &&& a2.last() == SinkActionV::Append(
                resolve_template(dir_of(cfg, r2.level), r2.time.date),
                leveled_line(r2),
            )
            &&& (r1.time.date == r2.time.date ==> forall|k: int|
                0 <= k < a2.len() ==> !(#[trigger] a2[k] is Open))
            &&& (r1.time.date != r2.time.date ==> a2.contains(
                SinkActionV::Open(resolve_template(dir_of(cfg, r2.level), r2.time.date)),
            ))
        }),
{
    lemma_record_lands_in_own_day(cfg, open_date, r1);
    let (st1, a1) = step_spec(cfg, open_date, r1);
    lemma_record_lands_in_own_day(cfg, st1, r2);
    let (st2, a2) = step_spec(cfg, st1, r2);
    let con = if cfg.stdout {
        seq![SinkActionV::Console(console_line(r2))]
    } else {
        Seq::<SinkActionV>::empty()
    };
    if r1.time.date == r2.time.date {
        assert(st1 == Some(r2.time.date));
        assert forall|k: int| 0 <= k < a2.len() implies !(#[trigger] a2[k] is Open) by {
            if k < con.len() {
                assert(a2[k] == con[k]);
            } else {
                assert(a2[k] == seq![
                    SinkActionV::Append(
                        resolve_template(dir_of(cfg, r2.level), r2.time.date),
                        leveled_line(r2),
                    ),
                ][k - con.len()]);
            }
        }
    } else {
        assert(st1 != Some(r2.time.date));
        let opens = open_actions(cfg, r2.time.date);
        let target = SinkActionV::Open(resolve_template(dir_of(cfg, r2.level), r2.time.date));
        assert(opens.contains(target)) by {
            match r2.level {
                Level::DEBUG => assert(opens[0] == target),
                Level::INFO => assert(opens[1] == target),
                Level::WARN => assert(opens[2] == target),
                Level::ERROR => assert(opens[3] == target),
            }
        }
        let idx = choose|k: int| 0 <= k < opens.len() && opens[k] == target;
        assert(a2[con.len() + idx] == target);
        assert(a2.contains(target));
    }
}

/// Replacing the configuration replaces the consumer: under the old
/// configuration (file output off) a record produces only its console
/// line and leaves no file trace; under the new configuration (file
/// output on) the same record produces the same console line and is also
/// appended to a freshly opened day file. In-flight records of the old
/// queue keep their console-only behaviour.
pub proof fn lemma_reconfigure_file_out(
    cfg_old: LogConfigV,
    cfg_new: LogConfigV,
    open_date: Option<Date>,
    r: LogRecordV,
)
    requires
        !cfg_old.file_out,
        cfg_new == (LogConfigV { file_out: true, ..cfg_old }),
    ensures
        step_spec(cfg_old, open_date, r).0 == open_date,
        forall|k: int|
            0 <= k < step_spec(cfg_old, open_date, r).1.len() ==> #[trigger] step_spec(
                cfg_old,
                open_date,
                r,
            ).1[k] is Console,
        cfg_old.stdout ==> step_spec(cfg_old, open_date, r).1 == seq![
            SinkActionV::Console(console_line(r)),
        ] && step_spec(cfg_new, None, r).1[0] == SinkActionV::Console(console_line(r)),
        step_spec(cfg_new, None, r).1.last() == SinkActionV::Append(
            resolve_template(dir_of(cfg_new, r.level), r.time.date),
            leveled_line(r),
        ),
        step_spec(cfg_new, None, r).1.contains(
            SinkActionV::Open(resolve_template(dir_of(cfg_new, r.level), r.time.date)),
        ),
{
    lemma_record_lands_in_own_day(cfg_new, None, r);
    let con = if cfg_new.stdout {
        seq![SinkActionV::Console(console_line(r))]
    } else {
        Seq::<SinkActionV>::empty()
    };
    let opens = open_actions(cfg_new, r.time.date);
    let target = SinkActionV::Open(resolve_template(dir_of(cfg_new, r.level), r.time.date));
    assert(opens.contains(target)) by {
        match r.level {
            Level::DEBUG => assert(opens[0] == target),
            Level::INFO => assert(opens[1] == target),
            Level::WARN => assert(opens[2] == target),
            Level::ERROR => assert(opens[3] == target),
        }
    }
    let idx = choose|k: int| 0 <= k < opens.len() && opens[k] == target;
    assert(step_spec(cfg_new, None, r).1[con.len() + idx] == target);
    assert(step_spec(cfg_new, None, r).1.contains(target));
}

} // verus!
