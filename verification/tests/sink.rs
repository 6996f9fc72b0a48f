use reqpipe::log::{format_leveled_line, make_record, sink_drain, sink_step, Level, LogConfig,
    SinkAction};
use reqpipe::logger::{access_sink_drain, access_sink_step, format_access_line, status_category,
    AccessRecord, Logger};
use reqpipe::rotate::resolve_path;
use reqpipe::time::{Date, Timestamp};

fn ts(day: u8) -> Timestamp {
    Timestamp {
        unix_millis: 1_700_000_000_000,
        date: Date { year: 2024, month: 1, day },
        hour: 3,
        minute: 4,
        second: 5,
    }
}

fn config(stdout: bool, file_out: bool) -> LogConfig {
    LogConfig {
        file_out,
        stdout,
        debug_dir: String::from("logs/debug/%Y-%m-%d.log"),
        info_dir: String::from("logs/info/%Y-%m-%d.log"),
        warn_dir: String::from("logs/warn/%Y-%m-%d.log"),
        error_dir: String::from("logs/error/%Y-%m-%d.log"),
    }
}

fn access_record(day_begin: u8, status: u16) -> AccessRecord {
    AccessRecord {
        tag: String::from("[HTTP]"),
        begin: ts(day_begin),
        end: Timestamp { unix_millis: 1_700_000_000_012, ..ts(day_begin) },
        status,
        ip: String::from("127.0.0.1"),
        method: String::from("GET"),
        path: String::from("/index"),
        other: String::new(),
    }
}

#[test]
fn template_resolution() {
    let d = Date { year: 2024, month: 1, day: 2 };
    assert_eq!(resolve_path("logs/%Y-%m-%d.log", &d), "logs/2024-01-02.log");
    assert_eq!(resolve_path("plain.log", &d), "plain.log");
    assert_eq!(resolve_path("%d/%m/%Y", &d), "02/01/2024");
    // Unknown directives and a trailing percent stand for themselves.
    assert_eq!(resolve_path("a%x%", &d), "a%x%");
}

#[test]
fn leveled_line_format() {
    let r = make_record(Level::DEBUG, "hello there", "src/main.rs:10", ts(2));
    assert_eq!(
        format_leveled_line(&r),
        "[2024-01-02 03:04:05] [DEBUG  ] src/main.rs:10 hello there\n"
    );
    let r = make_record(Level::INFO, "x", "here", ts(2));
    assert_eq!(format_leveled_line(&r), "[2024-01-02 03:04:05] [INFO   ] here x\n");
}

#[test]
fn access_line_format() {
    let r = access_record(2, 200);
    assert_eq!(
        format_access_line(&r),
        "[2024-01-02 03:04:05] [HTTP] | 200 |   12ms |       127.0.0.1 | GET    /index \n"
    );
}

#[test]
fn status_categories() {
    assert_eq!(status_category(200), 2);
    assert_eq!(status_category(301), 3);
    assert_eq!(status_category(404), 4);
    assert_eq!(status_category(500), 5);
}

#[test]
fn records_land_in_their_own_day() {
    // P6: a record before the boundary lands in the prior day's file, a
    // record after it in the new day's, each as one complete line.
    let cfg = config(false, true);
    let mut open_date: Option<Date> = None;

    let r1 = make_record(Level::DEBUG, "before midnight", "here", ts(1));
    let acts = sink_step(&cfg, &mut open_date, &r1);
    assert_eq!(acts.len(), 5); // four opens and one append
    match &acts[4] {
        SinkAction::Append(path, line) => {
            assert_eq!(path, "logs/debug/2024-01-01.log");
            assert_eq!(line, "[2024-01-01 03:04:05] [DEBUG  ] here before midnight\n");
        }
        _ => panic!("expected an append"),
    }
    assert_eq!(open_date, Some(Date { year: 2024, month: 1, day: 1 }));

    // The next day's record rotates and lands in the new file.
    let r2 = make_record(Level::DEBUG, "after midnight", "here", ts(2));
    let acts = sink_step(&cfg, &mut open_date, &r2);
    assert_eq!(acts.len(), 5);
    match &acts[0] {
        SinkAction::Open(path) => assert_eq!(path, "logs/debug/2024-01-02.log"),
        _ => panic!("expected an open"),
    }
    match &acts[4] {
        SinkAction::Append(path, _) => assert_eq!(path, "logs/debug/2024-01-02.log"),
        _ => panic!("expected an append"),
    }

    // A same-day record appends without reopening, to its own channel.
    let r3 = make_record(Level::ERROR, "still today", "here", ts(2));
    let acts = sink_step(&cfg, &mut open_date, &r3);
    assert_eq!(acts.len(), 1);
    match &acts[0] {
        SinkAction::Append(path, _) => assert_eq!(path, "logs/error/2024-01-02.log"),
        _ => panic!("expected an append"),
    }
}

#[test]
fn reconfiguring_file_output() {
    // P9: before the switch, records only reach the console; after it,
    // the same record also opens and fills a fresh day file, with the
    // console line unchanged.
    let cfg_old = config(true, false);
    let r = make_record(Level::INFO, "in flight", "here", ts(2));

    let mut old_state: Option<Date> = None;
    let acts_old = sink_step(&cfg_old, &mut old_state, &r);
    assert_eq!(acts_old.len(), 1);
    let old_console = match &acts_old[0] {
        SinkAction::Console(line) => line.clone(),
        _ => panic!("expected console output only"),
    };
    assert_eq!(old_state, None);

    let cfg_new = config(true, true);
    let mut new_state: Option<Date> = None;
    let acts_new = sink_step(&cfg_new, &mut new_state, &r);
    assert_eq!(acts_new.len(), 6);
    match &acts_new[0] {
        SinkAction::Console(line) => assert_eq!(line, &old_console),
        _ => panic!("expected the same console line first"),
    }
    match &acts_new[5] {
        SinkAction::Append(path, _) => assert_eq!(path, "logs/info/2024-01-02.log"),
        _ => panic!("expected an append"),
    }
}

#[test]
fn access_sink_rotates_by_begin_day() {
    let lg = Logger::new("logs/access/%Y-%m-%d.log", false, true);
    let mut open_date: Option<Date> = None;

    let acts = access_sink_step(&lg, &mut open_date, &access_record(1, 200));
    assert_eq!(acts.len(), 2);
    match &acts[0] {
        SinkAction::Open(path) => assert_eq!(path, "logs/access/2024-01-01.log"),
        _ => panic!("expected an open"),
    }

    let acts = access_sink_step(&lg, &mut open_date, &access_record(1, 404));
    assert_eq!(acts.len(), 1);
    match &acts[0] {
        SinkAction::Append(path, line) => {
            assert_eq!(path, "logs/access/2024-01-01.log");
            assert!(line.ends_with('\n'));
            assert!(line.contains("| 404 |"));
        }
        _ => panic!("expected an append"),
    }

    let acts = access_sink_step(&lg, &mut open_date, &access_record(2, 200));
    assert_eq!(acts.len(), 2);
    match &acts[0] {
        SinkAction::Open(path) => assert_eq!(path, "logs/access/2024-01-02.log"),
        _ => panic!("expected an open"),
    }
}

#[test]
fn default_access_logger() {
    let lg: Logger = Default::default();
    assert_eq!(lg.format, "logs/access/%Y-%m-%d.log");
    assert!(lg.stdout);
    assert!(lg.file_out);
}

#[test]
fn drain_processes_in_enqueue_order() {
    let cfg = config(false, true);
    let mut open_date: Option<Date> = None;
    let records = vec![
        make_record(Level::INFO, "first", "here", ts(1)),
        make_record(Level::WARN, "second", "here", ts(1)),
        make_record(Level::INFO, "third", "here", ts(2)),
    ];
    let acts = sink_drain(&cfg, &mut open_date, &records);
    let appends: Vec<(String, String)> = acts
        .iter()
        .filter_map(|a| match a {
            SinkAction::Append(p, l) => Some((p.clone(), l.clone())),
            _ => None,
        })
        .collect();
    assert_eq!(appends.len(), 3);
    assert_eq!(appends[0].0, "logs/info/2024-01-01.log");
    assert!(appends[0].1.contains("first"));
    assert_eq!(appends[1].0, "logs/warn/2024-01-01.log");
    assert!(appends[1].1.contains("second"));
    assert_eq!(appends[2].0, "logs/info/2024-01-02.log");
    assert!(appends[2].1.contains("third"));
    assert_eq!(open_date, Some(Date { year: 2024, month: 1, day: 2 }));
}

#[test]
fn access_drain_processes_in_enqueue_order() {
    let lg = Logger::new("logs/access/%Y-%m-%d.log", false, true);
    let mut open_date: Option<Date> = None;
    let records = vec![access_record(1, 200), access_record(1, 401), access_record(2, 200)];
    let acts = access_sink_drain(&lg, &mut open_date, &records);
    let appends: Vec<(String, String)> = acts
        .iter()
        .filter_map(|a| match a {
            SinkAction::Append(p, l) => Some((p.clone(), l.clone())),
            _ => None,
        })
        .collect();
    assert_eq!(appends.len(), 3);
    assert_eq!(appends[0].0, "logs/access/2024-01-01.log");
    assert!(appends[0].1.contains("| 200 |"));
    assert_eq!(appends[1].0, "logs/access/2024-01-01.log");
    assert!(appends[1].1.contains("| 401 |"));
    assert_eq!(appends[2].0, "logs/access/2024-01-02.log");
}
