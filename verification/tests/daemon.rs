use knowledge_builder::daemon::{
    after_step, announce, audit_note, drain_step, first_signal, secrets_outcome, signal_plan, stops_on,
    DaemonArgs, Drain, Signal, SignalPlan, Step, Verdict,
};
use knowledge_builder::globs::build_ignore_glob_set;
use knowledge_builder::metrics::{
    FAILED_TOTAL, HASH_DURATION, IN_FLIGHT, PROCESSED_TOTAL, PROCESSOR_DURATION, QUEUE_DEPTH, SCAN_DURATION,
};
use knowledge_builder::ops::{
    catch_up, healthz_body, last_event_id, live_step, not_implemented, Live, LiveNext, TailParams,
    NOT_IMPLEMENTED,
};
use knowledge_builder::secrets::{load_secrets_from, FoundSecrets};
use knowledge_builder::state::{stats_from_rows, QueueFacts, StatusCount};
use knowledge_builder::types::AuditEvent;

fn event(id: i64, level: &str, kind: &str) -> AuditEvent {
    AuditEvent {
        id,
        ts: 0,
        level: level.into(),
        kind: kind.into(),
        file_id: None,
        message: "m".into(),
        detail: None,
    }
}

fn run(fail: &[Step]) -> (Vec<Step>, bool) {
    let mut taken = vec![];
    let mut at = Step::LoadConfig;
    loop {
        taken.push(at);
        let outcome = if fail.contains(&at) { Err("broken".to_string()) } else { Ok(()) };
        match after_step(at, outcome) {
            Verdict::Go(next) => at = next,
            Verdict::Finished => return (taken, true),
            Verdict::Stop(_) => return (taken, false),
        }
    }
}

#[test]
fn metric_name_constants_are_nonempty() {
    assert!(!QUEUE_DEPTH.is_empty());
    assert!(!IN_FLIGHT.is_empty());
    assert!(!PROCESSED_TOTAL.is_empty());
    assert!(!FAILED_TOTAL.is_empty());
    assert!(!PROCESSOR_DURATION.is_empty());
    assert!(!HASH_DURATION.is_empty());
    assert!(!SCAN_DURATION.is_empty());
}

#[test]
fn metric_names_have_kb_prefix() {
    for name in &[
        QUEUE_DEPTH,
        IN_FLIGHT,
        PROCESSED_TOTAL,
        FAILED_TOTAL,
        PROCESSOR_DURATION,
        HASH_DURATION,
        SCAN_DURATION,
    ] {
        assert!(name.starts_with("kb_"), "metric '{name}' should start with 'kb_'");
    }
}

#[test]
fn duration_metrics_end_in_seconds() {
    for name in &[PROCESSOR_DURATION, HASH_DURATION, SCAN_DURATION] {
        assert!(name.ends_with("_seconds"), "histogram '{name}' should end with '_seconds'");
    }
}

#[test]
fn daemon_takes_its_steps_in_order() {
    let (taken, finished) = run(&[]);
    assert!(finished);
    assert_eq!(taken.len(), 20);
    assert_eq!(taken[0], Step::LoadConfig);
    assert_eq!(taken[19], Step::ReleaseLock);
    let recover = taken.iter().position(|s| *s == Step::Recover);
    let pool = taken.iter().position(|s| *s == Step::StartPool);
    assert!(recover < pool);
}

#[test]
fn daemon_stops_only_where_a_step_must_succeed() {
    assert_eq!(run(&[Step::AcquireLock]), (vec![Step::LoadConfig, Step::InitLogging, Step::AcquireLock], false));
    let (taken, finished) =
        run(&[Step::RecordStarted, Step::RecordStopping, Step::AwaitPool, Step::ResetJobs]);
    assert!(finished);
    assert_eq!(taken.len(), 20);
    match after_step(Step::Recover, Err("x".into())) {
        Verdict::Stop(e) => {
            assert_eq!(e.context.as_deref(), Some("Crash recovery failed"));
            assert_eq!(e.cause, "x");
        }
        other => panic!("{other:?}"),
    }
}

#[test]
fn daemon_tells_the_terminal_only_in_the_foreground() {
    let fg = DaemonArgs { foreground: true };
    assert_eq!(
        announce(Step::StartPool, &fg, "/v").as_deref(),
        Some("Knowledge Builder daemon started  (vault=/v)  — Ctrl-C to stop")
    );
    assert_eq!(announce(Step::StartPool, &DaemonArgs { foreground: false }, "/v"), None);
    assert_eq!(announce(Step::Recover, &fg, "/v"), None);
    assert_eq!(audit_note(Step::RecordStarted), Some(("daemon_started", "daemon started")));
    assert_eq!(audit_note(Step::Cancel), None);
}

#[test]
fn daemon_refuses_open_secrets() {
    let load = |mode: u32| {
        load_secrets_from("s", FoundSecrets::Present { mode: Some(mode), content: Ok("K=v".into()) })
            .map_err(|e| e.message())
    };
    assert!(secrets_outcome(&load(0o600)).is_ok());
    assert!(secrets_outcome(&load(0o644)).is_err());
    assert!(secrets_outcome(&Err("unreadable".into())).is_ok());
}

#[test]
fn draining_waits_until_the_budget_is_spent() {
    assert_eq!(drain_step(Some(0), true), Drain::Drained);
    assert_eq!(drain_step(Some(2), false), Drain::PollAgain);
    assert_eq!(drain_step(Some(2), true), Drain::TimedOut(2));
    assert_eq!(drain_step(None, false), Drain::Unknown);
}

#[test]
fn signals_stop_the_daemon_but_hangups_do_not() {
    let all = signal_plan(true, true, true);
    assert_eq!(all, SignalPlan::All);
    assert!(stops_on(all, Signal::Terminate) && stops_on(all, Signal::Interrupt));
    assert!(!stops_on(all, Signal::Hangup));
    assert_eq!(signal_plan(false, true, true), SignalPlan::CtrlC);
    assert!(!stops_on(signal_plan(true, false, true), Signal::Terminate));
    assert_eq!(first_signal(true, true, true), Some(Signal::Terminate));
    assert_eq!(first_signal(false, false, true), Some(Signal::Hangup));
}

#[test]
fn ignored_patterns_are_compiled_or_named() {
    let ok = build_ignore_glob_set(&vec!["**/.*".into(), "**/*.icloud".into()]).unwrap();
    assert_eq!(ok.len(), 2);
    assert!(ok.is_match("a/b.icloud"));
    assert!(!ok.is_match("a/b.pdf"));
    let err = build_ignore_glob_set(&vec!["ok".into(), "a[".into()]).unwrap_err();
    assert_eq!(err.context, "Invalid ignore_glob pattern: \"a[\"");
    assert!(!err.cause.is_empty());
}

#[test]
fn endpoints_answer_in_json() {
    assert_eq!(healthz_body(10), r#"{"ok":true,"uptime_secs":10}"#);
    assert_eq!(
        not_implemented("GET /stats"),
        r#"{"error":"not_implemented","message":"GET /stats is not yet implemented (pending T29/T30)"}"#
    );
    assert_eq!(NOT_IMPLEMENTED, 501);
}

#[test]
fn followers_get_what_they_missed_and_want() {
    let es = vec![event(3, "warn", "failed"), event(1, "warn", "failed"), event(2, "info", "queued")];
    let p = TailParams { level: Some("WARN".into()), kind: None };
    assert_eq!(catch_up(&es, 1, &p), vec![0]);
    assert_eq!(catch_up(&es, 0, &p), vec![1, 0]);
    assert_eq!(catch_up(&es, 0, &TailParams::default()), vec![1, 2, 0]);
    assert_eq!(last_event_id(Some("17")), Some(17));
    assert_eq!(last_event_id(Some("x")), None);
    assert!(matches!(live_step(&p, Live::Event(event(4, "Warn", "x"))), LiveNext::Send(e) if e.id == 4));
    assert!(matches!(live_step(&p, Live::Event(event(5, "info", "x"))), LiveNext::Wait));
    assert!(matches!(live_step(&p, Live::Lagged(3)), LiveNext::Wait));
    assert!(matches!(live_step(&p, Live::Closed), LiveNext::End));
    let many: Vec<AuditEvent> = (0..1100).map(|i| event(i + 1, "info", "k")).collect();
    assert_eq!(catch_up(&many, 0, &TailParams::default()).len(), 1100);
}

#[test]
fn counts_are_gathered_by_status() {
    let rows = vec![
        StatusCount { status: "queued".into(), count: 2 },
        StatusCount { status: "processing".into(), count: 1 },
        StatusCount { status: "done".into(), count: 7 },
    ];
    let facts = QueueFacts { oldest_first_seen: Some(40), last_error: Some("e".into()), now: 100 };
    let s = stats_from_rows(&rows, &facts);
    assert_eq!((s.queued, s.processing, s.done, s.queue_depth), (2, 1, 7, 3));
    assert_eq!(s.oldest_pending_age_secs, Some(60));
    assert_eq!(s.last_error.as_deref(), Some("e"));
}

fn parsed(body: &str) -> serde_json::Value {
    serde_json::from_str(body).unwrap()
}

fn says_not_implemented(endpoint: &str) {
    assert_eq!(NOT_IMPLEMENTED, 501);
    let body = parsed(&not_implemented(endpoint));
    assert_eq!(body["error"].as_str(), Some("not_implemented"));
    assert_eq!(
        body["message"].as_str().map(|s| s.to_string()),
        Some(format!("{endpoint} is not yet implemented (pending T29/T30)"))
    );
}

#[test]
fn healthz_returns_ok_and_uptime() {
    let body = parsed(&healthz_body(0));
    assert_eq!(body["ok"].as_bool(), Some(true));
    assert_eq!(body["uptime_secs"].as_u64(), Some(0));
}

#[test]
fn healthz_uptime_increases_over_time() {
    assert!(parsed(&healthz_body(10))["uptime_secs"].as_u64().unwrap() >= 10);
}

#[test]
fn stats_returns_501() {
    says_not_implemented("GET /stats");
}

#[test]
fn list_files_returns_501() {
    says_not_implemented("GET /files");
}

#[test]
fn files_by_path_returns_501() {
    says_not_implemented("GET /files/by-path");
}

#[test]
fn get_file_by_id_returns_501() {
    says_not_implemented("GET /files/:id");
}

#[test]
fn requeue_returns_501() {
    says_not_implemented("POST /files/:id/requeue");
}

#[test]
fn reset_returns_501() {
    says_not_implemented("POST /files/:id/reset");
}

#[test]
fn scan_returns_501() {
    says_not_implemented("POST /scan");
}

#[test]
fn events_returns_501() {
    says_not_implemented("GET /events");
}

#[test]
fn tail_returns_501() {
    says_not_implemented("GET /tail");
}
