use knowledge_builder::backup::{
    backup_outcome, backup_path_on, backup_target, backups_dir, bak_path, default_backup_path,
    integrity_ok, last_backup_age_days, restore_next, restore_warning, vacuum_sql, BackupArgs, BackupFile,
    Moment, RestoreArgs, RestoreEvent, RestoreNext, RestoreStep,
};
use knowledge_builder::client::{
    parse_sse_block, row_text_of, sse_data, take_blocks, unknown_file, HttpStats,
};
use knowledge_builder::commands::{
    bootout_report, config_action, config_path_report, memmem, plist_path, relink_places, relink_report,
    requeue_note, requeued, reset_done, service_of, status_line, ConfigAction, ConfigArgs, RelinkArgs,
};
use knowledge_builder::display::{
    fmt_age, fmt_bytes, fmt_ts, fmt_ts_opt, short_hash, time_shown, truncate_path,
};
use knowledge_builder::doctor::{
    examine, exit_code, ConfigCheck, DatabaseCheck, DoctorFacts, SecretsCheck,
};
use knowledge_builder::json_object::{members_of, ObjectMember};
use knowledge_builder::link_sweeper::RelinkStats;
use knowledge_builder::pi_resolver::{locate_node_bin_dir, locate_pi, PiLocation, Place};
use knowledge_builder::prune::{
    before_from, parse_before, prune_report, prune_report_with, prune_status, PruneResult,
};
use knowledge_builder::show::{
    agent_notes, entry_line, events_of_file, file_detail, plan_section, print_agent_plan_section,
    render_file_detail, AgentNotes, DetailTimes, EntryShown, PlanText,
};
use knowledge_builder::storage::{storage_report, StorageRow, StorageStats};
use knowledge_builder::tail::{
    colour_of, event_text_of, fmt_event_ts, level_index, min_level, new_events, passes_level_filter,
    print_event, Colour,
};
use knowledge_builder::target::{not_found, resolve_target, second_path, Lookup};
use knowledge_builder::types::{AuditEvent, FileRow, OutputRecord, Stats, Status};

fn row() -> FileRow {
    FileRow {
        id: 42,
        path: "/Users/alice/Vault/Sources/paper.pdf".into(),
        content_hash: None,
        size: Some(1536),
        mtime_ns: None,
        inode: None,
        status: Status::Done,
        attempts: 1,
        next_attempt_at: Some(160),
        last_error: None,
        first_seen_at: 10,
        updated_at: 20,
        processed_at: None,
        processor_meta: None,
    }
}

fn event(id: i64, level: &str, file_id: Option<i64>) -> AuditEvent {
    AuditEvent {
        id,
        ts: 0,
        level: level.into(),
        kind: "queued".into(),
        file_id,
        message: " paper.pdf - Enqueued ".into(),
        detail: None,
    }
}

#[test]
fn parse_sse_block_valid_event() {
    let json = r#"{"id":1,"ts":1700000000,"level":"info","kind":"queued","file_id":42,"message":"Enqueued","detail":null}"#;
    let block = format!("event: audit\nid: 1\ndata: {json}");
    let event = parse_sse_block(&block).expect("should parse");
    assert_eq!(event.id, 1);
    assert_eq!(event.kind, "queued");
    assert_eq!(event.file_id, Some(42));
}

#[test]
fn parse_sse_block_comment_only() {
    assert!(parse_sse_block(": keep-alive").is_none());
}

#[test]
fn parse_sse_block_no_data_line() {
    assert!(parse_sse_block("event: audit\nid: 42").is_none());
}

#[test]
fn parse_sse_block_malformed_json() {
    assert!(parse_sse_block("data: {not valid json}").is_none());
}

#[test]
fn parse_sse_block_empty_data() {
    assert!(parse_sse_block("data: ").is_none());
}

#[test]
fn parse_sse_block_data_with_leading_space() {
    let json = r#"{"id":2,"ts":0,"level":"warn","kind":"failed","file_id":null,"message":"x","detail":null}"#;
    let block = format!("data:  {json}");
    let event = parse_sse_block(&block).expect("should parse");
    assert_eq!(event.level, "warn");
}

#[test]
fn parse_sse_block_uses_last_data_line() {
    let json1 = r#"{"id":1,"ts":0,"level":"info","kind":"a","file_id":null,"message":"first","detail":null}"#;
    let json2 = r#"{"id":2,"ts":0,"level":"info","kind":"b","file_id":null,"message":"second","detail":null}"#;
    let block = format!("data: {json1}\ndata: {json2}");
    let event = parse_sse_block(&block).expect("should parse");
    assert_eq!(event.kind, "b");
}

#[test]
fn http_stats_count_helper() {
    let stats = HttpStats {
        counts_per_status: vec![("queued".to_string(), 5_i64), ("done".to_string(), 100_i64)],
        queue_depth: 5,
        last_error: None,
        in_flight: 0,
        oldest_pending_age_secs: None,
    };
    assert_eq!(stats.count("queued"), 5);
    assert_eq!(stats.count("done"), 100);
    assert_eq!(stats.count("failed"), 0);
}

#[test]
fn parse_before_relative_days() {
    let now = chrono::Utc::now().timestamp();
    let ts = parse_before("30d", now).unwrap();
    let expected = now - 30 * 86_400;
    assert!((ts - expected).abs() <= 2, "ts={ts}, expected≈{expected}");
}

#[test]
fn parse_before_relative_weeks() {
    let now = chrono::Utc::now().timestamp();
    let ts = parse_before("2w", now).unwrap();
    let expected = now - 14 * 86_400;
    assert!((ts - expected).abs() <= 2, "ts={ts}, expected≈{expected}");
}

#[test]
fn parse_before_iso_date() {
    let ts = parse_before("2025-01-01", 0).unwrap();
    assert_eq!(ts, 1_735_689_600);
}

#[test]
fn parse_before_invalid_rejects() {
    assert!(parse_before("notadate", 0).is_err());
    assert!(parse_before("30", 0).is_err());
    assert!(parse_before("-5d", 0).is_err());
}

#[test]
fn before_says_what_is_wrong() {
    assert_eq!(before_from("7d", 1_000_000, None), Ok(1_000_000 - 604_800));
    assert_eq!(before_from("xd", 0, None), Err("invalid number of days in \"xd\"".into()));
    assert_eq!(before_from("xw", 0, None), Err("invalid number of weeks in \"xw\"".into()));
    assert_eq!(before_from("-5d", 0, None), Err("relative duration must be positive, got -5d".into()));
    assert_eq!(before_from("day", 5, Some(9)), Ok(9));
    assert_eq!(prune_status("done"), Ok(Status::Done));
    assert!(prune_status("queued").unwrap_err().contains("pruning status Queued is not allowed"));
    assert!(prune_status("x").unwrap_err().starts_with("invalid status \"x\""));
}

#[test]
fn pruning_is_reported() {
    let none = PruneResult { file_count: 0, output_count: 0, files: vec![] };
    assert_eq!(prune_report(&none, true), vec!["Dry run: no matching records found.".to_string()]);
    assert_eq!(prune_report(&none, false), vec!["No matching records found; nothing pruned.".to_string()]);
    let one = PruneResult { file_count: 1, output_count: 2, files: vec![row()] };
    assert_eq!(prune_report(&one, false), vec!["Pruned 1 file record(s) and 2 output record(s).".to_string()]);
    let lines = prune_report_with(&one, true, &vec!["2025-01-01 00:00:00".to_string()]);
    assert_eq!(lines.len(), 5);
    assert_eq!(
        lines[3],
        "  42      done        /Users/alice/Vault/Sources/paper.pdf              1.5 KB  2025-01-01 00:00:00"
    );
    assert_eq!(lines[4], "\n(Dry run — no changes made.)");
}

fn place(path: &str, is_file: bool, canonical: Option<&str>) -> Place {
    Place { path: path.into(), is_file, canonical: canonical.map(|s| s.to_string()) }
}

#[test]
fn not_found_when_not_on_path() {
    let result = locate_pi(&vec![place("/t/pi", false, None)]);
    assert!(matches!(result, PiLocation::NotFound));
    assert!(result.stable_path().is_none());
    assert!(!result.is_shim());
}

#[test]
fn stable_path_returned_when_pi_lives_in_a_normal_dir() {
    match locate_pi(&vec![place("/t/pi", true, Some("/private/t/pi"))]) {
        PiLocation::Stable(p) => assert_eq!(p, "/private/t/pi"),
        other => panic!("expected Stable, got {other:?}"),
    }
}

#[test]
fn fnm_style_shim_detected_and_followed() {
    let shim = "/t/.local/state/fnm_multishells/12345_67890/bin/pi";
    let real = "/t/.local/share/fnm/node-versions/v24/installation/bin/pi";
    let result = locate_pi(&vec![place(shim, true, Some(real))]);
    match result {
        PiLocation::PerShellShim { manager, stable: ref s, .. } => {
            assert_eq!(manager, "fnm");
            assert!(s.contains("node-versions/v24/installation/bin/pi"));
        }
        other => panic!("expected PerShellShim, got {other:?}"),
    }
    assert!(result.is_shim());
    assert!(result.stable_path().is_some());
}

#[test]
fn nvm_style_shim_detected() {
    let pi = "/t/.nvm/versions/node/v20.0.0/bin/pi";
    match locate_pi(&vec![place(pi, true, Some(pi))]) {
        PiLocation::PerShellShim { manager, .. } => assert_eq!(manager, "nvm"),
        other => panic!("expected PerShellShim, got {other:?}"),
    }
}

#[test]
fn node_bin_dir_resolves_through_a_symlink() {
    let places = vec![place("/t/shims/bin/node", true, Some("/t/installation/bin/node"))];
    assert_eq!(locate_node_bin_dir(&places).unwrap(), "/t/installation/bin");
}

#[test]
fn node_bin_dir_returns_none_when_node_missing() {
    assert!(locate_node_bin_dir(&vec![place("/t/node", false, None)]).is_none());
}

#[test]
fn streams_are_cut_into_blocks() {
    let mut buffer = String::new();
    assert_eq!(take_blocks(&mut buffer, "data: a\n"), Vec::<String>::new());
    assert_eq!(take_blocks(&mut buffer, "\ndata: b\n\nda"), vec!["data: a".to_string(), "data: b".to_string()]);
    assert_eq!(buffer, "da");
    let mut whole = String::new();
    assert_eq!(take_blocks(&mut whole, "data: a\n\ndata: b\n\nda").len(), 2);
    assert_eq!(whole, buffer);
    assert_eq!(sse_data("event: x\ndata:  y "), Some("y".to_string()));
    assert_eq!(sse_data(":data: y"), None);
}

#[test]
fn sizes_ages_and_times_are_shown() {
    assert_eq!(fmt_age(-3), "0s");
    assert_eq!(fmt_age(5), "5s");
    assert_eq!(fmt_age(125), "2m 05s");
    assert_eq!(fmt_age(3780), "1h 03m");
    assert_eq!(fmt_age(190_800), "2d 05h");
    assert_eq!(fmt_bytes(512), "512 B");
    assert_eq!(fmt_bytes(1536), "1.5 KB");
    assert_eq!(fmt_bytes(3_355_443), "3.2 MB");
    assert_eq!(fmt_bytes(-1), "-1 B");
    for b in [0i64, 1023, 1024, 1075, 1100, 1 << 20, 123_456_789, (1 << 53) + 1, i64::MAX, 1_073_741_823] {
        let f = b as f64;
        let expected = if f >= 1073741824.0 {
            format!("{:.1} GB", f / 1073741824.0)
        } else if f >= 1048576.0 {
            format!("{:.1} MB", f / 1048576.0)
        } else if f >= 1024.0 {
            format!("{:.1} KB", f / 1024.0)
        } else {
            format!("{b} B")
        };
        assert_eq!(fmt_bytes(b), expected);
    }
    assert_eq!(fmt_ts(0).len(), 19);
    assert_eq!(fmt_event_ts(0).len(), 19);
    assert_eq!(&fmt_ts(0)[4..5], "-");
    assert_eq!(&fmt_ts(0)[10..11], " ");
    assert_eq!(&fmt_ts(0)[13..14], ":");
    assert_eq!(fmt_ts(i64::MAX), i64::MAX.to_string());
    assert_eq!(fmt_ts(8210266876800), "8210266876800");
    assert!(fmt_ts(8210266876799).starts_with("+26214"));
    assert_eq!(fmt_ts(-8334601228801), "-8334601228801");
    assert!(fmt_ts(-8334601228800).starts_with("-26214"));
    assert_eq!(fmt_event_ts(8210266876800), "8210266876800      ");
    assert_eq!(fmt_ts_opt(None), "—");
    assert_eq!(time_shown(Some("t".into()), 5), "t");
}

/// The seconds from the start of 1970 to a time that is shown in nineteen characters.
fn seconds_shown(t: &str) -> i64 {
    let at = |from: usize, to: usize| t[from..to].parse::<i64>().unwrap();
    let (y, m, d) = (at(0, 4), at(5, 7), at(8, 10));
    let lengths = [31, 28, 31, 30, 31, 30, 31, 31, 30, 31, 30, 31];
    let leap = |y: i64| y % 4 == 0 && (y % 100 != 0 || y % 400 == 0);
    let mut days = d - 1;
    for year in 1970..y {
        days += if leap(year) { 366 } else { 365 };
    }
    for month in 1..m {
        days += lengths[(month - 1) as usize] + if month == 2 && leap(y) { 1 } else { 0 };
    }
    days * 86400 + at(11, 13) * 3600 + at(14, 16) * 60 + at(17, 19)
}

#[test]
fn times_are_shown_within_a_day_of_greenwich() {
    assert_eq!(seconds_shown("2023-11-14 22:13:20"), 1_700_000_000);
    for t in [86_400, 951_782_400, 1_078_012_799, 1_700_000_000, 4_107_542_400, 253_402_214_399] {
        let shown = fmt_ts(t);
        assert_eq!(shown.len(), 19);
        assert!((seconds_shown(&shown) - t).abs() < 86_400, "{t} {shown}");
        assert_eq!(fmt_ts_opt(Some(t)), shown);
        assert_eq!(fmt_event_ts(t), shown);
    }
    let day = default_backup_path("/d/state.db");
    let date = day.strip_prefix("/d/backups/state-").unwrap().strip_suffix(".db").unwrap();
    let now = std::time::SystemTime::now().duration_since(std::time::UNIX_EPOCH).unwrap();
    let midnight = seconds_shown(&format!("{date} 00:00:00"));
    assert!((midnight - now.as_secs() as i64).abs() < 2 * 86_400);
}

#[test]
fn paths_and_hashes_are_shortened() {
    assert_eq!(truncate_path("/a/b", 10), "/a/b");
    assert_eq!(truncate_path("/abcdefghij", 4), "/abc");
    assert_eq!(truncate_path("/abcdefghijklmnop", 10), "/a…lmnop");
    assert_eq!(truncate_path("éééé", 5), "éééé");
    assert_eq!(truncate_path("éééééééé", 9), "éééééééé");
    assert_eq!(truncate_path("éééééééé", 3), "ééé");
    assert_eq!(truncate_path("/éééééééé", 8), "/…éééé");
    assert_eq!(short_hash("sha256:0123456789abcdef"), "sha256:0123456789ab…");
    assert_eq!(short_hash("sha256:0123"), "sha256:0123");
    assert_eq!(short_hash("0123456789abcdefghijk"), "0123456789abcdefg…");
}

#[test]
fn targets_are_ids_or_paths() {
    assert!(matches!(resolve_target("42", Some("/h"), "/c"), Lookup::ById(42)));
    assert!(matches!(resolve_target("0", Some("/h"), "/c"), Lookup::ByPath(ref p) if p == "/c/0"));
    assert!(matches!(resolve_target("~/a", Some("/h"), "/c"), Lookup::ByPath(ref p) if p == "/h/a"));
    assert!(matches!(resolve_target("/x", None, "/c"), Lookup::ByPath(ref p) if p == "/x"));
    assert_eq!(second_path("/a", Some("/b".into())), Some("/b".to_string()));
    assert_eq!(second_path("/a", Some("/a".into())), None);
    assert_eq!(
        not_found("7", &Lookup::ById(7)),
        "no file found with ID 7. Use `kb list` to see all tracked files."
    );
    assert_eq!(unknown_file("7", &Lookup::ById(7)), "no file found with ID 7");
}

#[test]
fn levels_filter_events() {
    assert_eq!(level_index("warn"), Some(1));
    assert_eq!(level_index("WARN"), None);
    assert_eq!(min_level("ERROR"), Ok(2));
    assert_eq!(min_level("loud"), Err("unknown level 'loud'. Valid values: info, warn, error".into()));
    assert!(passes_level_filter("Error", 1));
    assert!(!passes_level_filter("info", 1));
    assert!(passes_level_filter("future", 2));
    assert_eq!(colour_of("warn"), Colour::Yellow);
}

#[test]
fn events_come_once_and_in_order() {
    let es = vec![event(5, "info", None), event(3, "info", None), event(9, "info", None)];
    let (order, cursor) = new_events(&es, 3);
    assert_eq!(order, vec![0, 2]);
    assert_eq!(cursor, 9);
    let (again, same) = new_events(&es, cursor);
    assert!(again.is_empty());
    assert_eq!(same, 9);
}

#[test]
fn events_are_shown_on_one_line() {
    let e = event(1, "info", None);
    assert_eq!(
        event_text_of("2024-01-15 14:32:01", "INFO", &e),
        "[2024-01-15 14:32:01] INFO  queued      | paper.pdf - Enqueued"
    );
    let (line, colour) = print_event(&event(1, "error", None));
    assert!(line.contains("] ERROR queued"));
    assert_eq!(colour, Colour::BoldRed);
}

#[test]
fn storage_is_shown_in_columns() {
    let r = |name: &str, count: i64, bytes: i64| StorageRow { name: name.into(), count, bytes };
    let mb: i64 = 1 << 20;
    let s = StorageStats {
        by_ext: vec![r("pdf", 45, 234 * mb), r("docx", 12, 56 * mb)],
        by_kind: vec![r("markdown", 57, 2_411_725), r("asset", 120, 450 * mb)],
        total_source_count: 57,
        total_output_count: 177,
        total_bytes: 742 * mb + 314_573,
    };
    assert_eq!(
        storage_report(&s).join("\n"),
        "Sources:\n  pdf:      45 files, 234.0 MB\n  docx:     12 files,  56.0 MB\n\nOutputs:\n  markdown: 57 files,   2.3 MB\n  asset:   120 files, 450.0 MB\n\nTotal: 57 sources, 177 outputs, 742.3 MB tracked"
    );
    let none = StorageStats {
        by_ext: vec![],
        by_kind: vec![r("x", 1, 1)],
        total_source_count: 0,
        total_output_count: 1,
        total_bytes: 1,
    };
    assert!(storage_report(&none).contains(&"  (no source files tracked)".to_string()));
    assert!(storage_report(&none).contains(&"  x: 1 file, 1 B".to_string()));
}

#[test]
fn backups_have_their_place() {
    assert_eq!(backups_dir("/d/state.db"), "/d/backups");
    assert_eq!(backups_dir("state.db"), "backups");
    assert_eq!(backup_path_on("/d/state.db", "2026-05-23"), "/d/backups/state-2026-05-23.db");
    let today = default_backup_path("/d/state.db");
    assert!(today.starts_with("/d/backups/state-20") && today.ends_with(".db"));
    assert_eq!(backup_target(&BackupArgs { output: Some("/o.db".into()) }, "/d/state.db"), "/o.db");
    assert_eq!(vacuum_sql("/it's.db"), "VACUUM INTO '/it''s.db'");
    assert_eq!(bak_path("/d/state.db"), "/d/state.db.bak");
    let ok = vec!["ok".to_string()];
    assert!(integrity_ok(&ok));
    assert_eq!(backup_outcome("/o.db", &ok, 2048), Ok("Backup created: /o.db (2.0 KB)".into()));
    let bad = vec!["row 1 missing".to_string(), "row 2 missing".to_string()];
    assert!(backup_outcome("/o.db", &bad, 0).unwrap_err().contains("  row 1 missing\n  row 2 missing\n"));
}

#[test]
fn backup_age_is_that_of_the_newest() {
    let f = |p: &str, s: i64, n: u32| BackupFile { path: p.into(), modified: Some(Moment { secs: s, nanos: n }) };
    let now = Moment { secs: 1_000_000, nanos: 5 };
    assert_eq!(last_backup_age_days(&vec![], now), None);
    assert_eq!(last_backup_age_days(&vec![f("/b/a.txt", 0, 0)], now), None);
    let files = vec![f("/b/a.db", 0, 0), f("/b/b.db", 1_000_000 - 172_800, 6), f("/b/c.db", 7, 0)];
    assert_eq!(last_backup_age_days(&files, now), Some(1));
    assert_eq!(last_backup_age_days(&vec![f("/b/a.db", 2_000_000, 0)], now), Some(0));
}

fn go(args: &RestoreArgs, step: RestoreStep, e: RestoreEvent) -> RestoreNext {
    restore_next(args, "/d/state.db", step, e)
}

#[test]
fn restores_are_guarded_step_by_step() {
    let ask = RestoreArgs { backup_path: "/b.db".into(), force: false };
    let force = RestoreArgs { backup_path: "/b.db".into(), force: true };
    let ok = || RestoreEvent::Rows(vec!["ok".into()]);
    assert!(matches!(go(&ask, RestoreStep::FindBackup, RestoreEvent::No), RestoreNext::Fail(e) if e.message.starts_with("Backup file not found: '/b.db'")));
    assert!(matches!(go(&ask, RestoreStep::FindBackup, RestoreEvent::Yes), RestoreNext::Go(RestoreStep::CheckBackup)));
    assert!(matches!(go(&ask, RestoreStep::CheckBackup, RestoreEvent::Rows(vec![])), RestoreNext::Fail(e) if e.message.contains("appears corrupt")));
    assert!(matches!(go(&ask, RestoreStep::CheckBackup, ok()), RestoreNext::Go(RestoreStep::ProbeLock)));
    assert!(matches!(go(&ask, RestoreStep::ProbeLock, RestoreEvent::Yes), RestoreNext::Fail(e) if e.message.contains("launchctl stop")));
    assert!(matches!(go(&ask, RestoreStep::ProbeLock, RestoreEvent::No), RestoreNext::Go(RestoreStep::Confirm)));
    assert!(matches!(go(&force, RestoreStep::ProbeLock, RestoreEvent::No), RestoreNext::Go(RestoreStep::MoveAside)));
    assert!(matches!(go(&ask, RestoreStep::Confirm, RestoreEvent::Answer("y\n".into())), RestoreNext::Fail(e) if e.message == "Restore cancelled. The live database was NOT modified."));
    assert!(matches!(go(&ask, RestoreStep::Confirm, RestoreEvent::Answer(" yes\n".into())), RestoreNext::Go(RestoreStep::MoveAside)));
    assert!(matches!(go(&ask, RestoreStep::MoveAside, RestoreEvent::Failed("x".into())), RestoreNext::Fail(e) if e.cause.as_deref() == Some("x")));
    assert!(matches!(go(&ask, RestoreStep::MakeParent, RestoreEvent::Failed("x".into())), RestoreNext::Fail(e) if e.message.contains("'/d'")));
    assert!(matches!(go(&ask, RestoreStep::CopyBackup, RestoreEvent::Failed("x".into())), RestoreNext::MoveBackAndFail(_)));
    assert!(matches!(go(&ask, RestoreStep::CopyBackup, RestoreEvent::Yes), RestoreNext::Done(m) if m == "Restored from: /b.db. Previous DB saved to /d/state.db.bak"));
    assert_eq!(restore_warning("/d/state.db", "/b.db")[4], "  Will be moved to : /d/state.db.bak");
}

fn facts() -> DoctorFacts {
    DoctorFacts {
        config_errors: vec![],
        db_path: "/d/state.db".into(),
        database: DatabaseCheck::Row("ok".into()),
        log_dir: "/Users/you/Library/Logs/knowledge-builder".into(),
        log_dir_error: None,
        backup_age_days: Some(0),
        secrets: SecretsCheck::Readable {
            path: "/s".into(),
            mode: Some(0o600),
            keys: vec!["KB_LLM_MODEL".into(), "OPENROUTER_API_KEY".into()],
        },
    }
}

#[test]
fn doctor_reports_a_sound_setup() {
    let path = "/Users/you/.config/knowledge-builder/config.toml";
    let c = examine(path, true, &ConfigCheck::Parsed(facts()));
    assert_eq!(exit_code(&c), 0);
    let lines: Vec<String> = c.report().into_iter().map(|l| l.text).collect();
    assert_eq!(
        lines[1..8].to_vec(),
        vec![
            "  [1] ✓  Config file found at /Users/you/.config/knowledge-builder/config.toml".to_string(),
            "  [2] ✓  Config parsed successfully.".into(),
            "  [3] ✓  All 8 configuration checks passed.".into(),
            "  [4] ✓  SQLite integrity check passed.".into(),
            "  [5] ✓  Log directory is writable: /Users/you/Library/Logs/knowledge-builder".into(),
            "  [6] ✓  Last backup is 0 day(s) old — within the 7-day window.".into(),
            "  [7] ✓  Secrets file readable with 2 key(s): [\"KB_LLM_MODEL\", \"OPENROUTER_API_KEY\"]".into(),
        ]
    );
    assert!(lines[9].contains("All checks passed"));
}

#[test]
fn doctor_fails_on_what_keeps_the_daemon_from_starting() {
    let mut f = facts();
    f.config_errors = vec!["a".into(), "b".into()];
    f.database = DatabaseCheck::Row("row 1 wrong".into());
    f.log_dir_error = Some("denied".into());
    f.backup_age_days = Some(8);
    f.secrets = SecretsCheck::Readable { path: "/s".into(), mode: Some(0o644), keys: vec![] };
    let c = examine("/c", false, &ConfigCheck::Parsed(f));
    assert_eq!(exit_code(&c), 1);
    let lines = c.report();
    assert!(lines.iter().any(|l| l.is_error && l.text == "  [4] ✗  b"));
    assert!(lines.iter().any(|l| l.is_error && l.text.contains("2 configuration error(s)")));
    assert!(lines.iter().any(|l| !l.is_error && l.text.starts_with("  [7] ⚠  Last backup is 8 day(s) old")));
    assert!(lines.iter().any(|l| l.is_error && l.text.starts_with("  [8] ✗") && l.text.contains("644")));
    let broken = examine("/c", true, &ConfigCheck::Unparseable("bad toml".into()));
    assert_eq!(exit_code(&broken), 1);
    let mut missing = facts();
    missing.secrets = SecretsCheck::Missing { path: "/s".into() };
    missing.backup_age_days = None;
    missing.database = DatabaseCheck::Missing;
    assert_eq!(exit_code(&examine("/c", true, &ConfigCheck::Parsed(missing))), 0);
}

#[test]
fn small_commands_say_what_they_do() {
    assert_eq!(config_action(&ConfigArgs { action: None }), ConfigAction::Show);
    assert_eq!(config_path_report("/c", true)[1], "  (exists — will be loaded)");
    assert!(requeue_note("/p", Status::Queued).is_some());
    assert!(requeue_note("/p", Status::Failed).is_none());
    assert_eq!(requeued("/p", "failed"), "Requeued: /p (was: failed)");
    assert_eq!(
        reset_done("/Users/alice/Vault/Sources/paper.pdf", 2),
        "Reset: /Users/alice/Vault/Sources/paper.pdf - row and 2 outputs removed.\nFile will be re-discovered on next scan."
    );
    assert_eq!(service_of(501), "gui/501/com.user.knowledge-builder");
    assert_eq!(plist_path("/h"), "/h/Library/LaunchAgents/com.user.knowledge-builder.plist");
    assert_eq!(bootout_report("s", &Some("e".into())).len(), 2);
}

#[test]
fn relink_says_where_it_looks_and_what_it_found() {
    let args = RelinkArgs { dry_run: true, agent_root: None, root: Some("/k/sub".into()) };
    let p = relink_places(&args, "/k", true, true).unwrap();
    assert_eq!((p.agent.as_str(), p.walk.as_str()), ("/k", "/k/sub"));
    assert_eq!(relink_places(&args, "/k", true, false).unwrap_err(), "--root /k/sub does not exist");
    assert!(relink_places(&args, "/k", false, true).unwrap_err().starts_with("agent_root /k does not exist"));
    let stats = RelinkStats {
        files_input: 1,
        files_examined: 1,
        files_modified: 0,
        links_restored: 22,
        examples: (0..22).map(|i| format!("e{i}")).collect(),
    };
    let lines = relink_report(&stats, true);
    assert_eq!(lines[3], "  links restored : 22");
    assert!(lines.contains(&"    … 2 more".to_string()));
    assert!(!lines.contains(&"    • e20".to_string()));
    assert!(memmem(&b"xx[needle]".to_vec(), &b"[needle]".to_vec()));
    assert!(!memmem(&b"xx[needl]".to_vec(), &b"[needle]".to_vec()));
    assert!(memmem(&vec![], &vec![]));
}

fn times() -> DetailTimes {
    DetailTimes {
        first_seen: "T1".into(),
        updated: "T2".into(),
        processed: "—".into(),
        next_attempt: Some("T3".into()),
        events: vec!["T4".into()],
    }
}

#[test]
fn a_file_is_shown_in_full() {
    let outputs = vec![OutputRecord {
        id: 1,
        source_id: 42,
        path: "/k/a.md".into(),
        kind: None,
        bytes: Some(10),
        created_at: 0,
    }];
    let lines = file_detail(&row(), &outputs, &vec![event(1, "info", Some(42))], &times(), 100, vec!["S".into()]);
    assert_eq!(lines[0].chars().count(), 72);
    assert_eq!(lines[1].chars().count(), 72);
    assert!(lines[1].starts_with("│  File #42 — paper.pdf "));
    assert_eq!(lines[4], " Path:           /Users/alice/Vault/Sources/paper.pdf");
    assert_eq!(lines[5], " Status:         done");
    assert!(lines.contains(&" Size:           1.5 KB".to_string()));
    assert!(lines.contains(&" Next attempt:   T3 (in 1m 00s)".to_string()));
    assert!(lines.contains(&"S".to_string()));
    assert!(lines.contains(&"  Outputs (1):".to_string()));
    assert!(lines.contains(&"  1. /k/a.md  [unknown, 10 B]".to_string()));
    assert!(lines.iter().any(|l| l.starts_with("  T4                   info    queued              ")));
    let late = file_detail(&row(), &vec![], &vec![event(1, "info", None)], &times(), 500, vec![]);
    assert!(late.contains(&" Next attempt:   T3 (overdue)".to_string()));
    assert!(late.contains(&"  (none)".to_string()));
    let shown = render_file_detail(&row(), &vec![], &vec![], 100, &PlanText::Content(String::new()));
    assert!(shown.contains(&"  (no events recorded for this file)".to_string()));
}

#[test]
fn a_plan_is_shown_with_its_entries() {
    let meta = r#"{"agent_mode":"shadow","plan_file":"/w/plan","plan_summary":"two","agent_turns":3,"agent_elapsed_secs":12.34,"agent_aborted":true,"rogue_writes_count":2,"rogue_writes":["/v/x.md",7],"agent_final_text":"done\nwell"}"#;
    let content = "{\"cmd\":\"create\",\"mode\":\"shadow\",\"applied\":false,\"args\":[\"path=A.md\",1]}\n\nnot json\n";
    let lines = print_agent_plan_section(&Some(meta.to_string()), &PlanText::Content(content.into()));
    for want in [
        "  Mode:             shadow (no vault writes)",
        "  Aborted:          yes (budget exhausted before completion)",
        "  LLM activity:     3 turns, 12.3s",
        "  Summary:          two",
        "  Plan file:        /w/plan",
        "    ⚠  /v/x.md",
        "    done",
        "    well",
        "  Plan entries (2):",
        "    ·   1. [shadow] create  path=A.md",
        "    ·   2. (unparseable line: not json)",
    ] {
        assert!(lines.contains(&want.to_string()), "{want:?} not in {lines:#?}");
    }
    assert_eq!(lines.last().unwrap(), "");
    let lost = print_agent_plan_section(&Some(meta.to_string()), &PlanText::Unreadable("gone".into()));
    assert!(lost.contains(&"  (plan file unreadable: gone)".to_string()));
    let none = PlanText::Content(String::new());
    assert!(print_agent_plan_section(&None, &none).is_empty());
    assert!(print_agent_plan_section(&Some("not json".into()), &none).is_empty());
    assert!(print_agent_plan_section(&Some("{\"other\":1}".into()), &none).is_empty());
    assert_eq!(agent_notes(&Some(meta.to_string())).unwrap().elapsed.as_deref(), Some("12.3"));
}

#[test]
fn long_plans_and_arguments_are_cut() {
    let long = "x".repeat(81);
    let e = EntryShown {
        cmd: None,
        mode: Some("apply".into()),
        applied: true,
        args: Some(vec![Some(long), None, Some("b".into())]),
    };
    assert_eq!(entry_line(0, &e), format!("    ✓   1. [apply] ?  {}…  b", "x".repeat(80)));
    let notes = AgentNotes {
        mode: None,
        plan_file: Some("/w/p".into()),
        summary: None,
        turns: None,
        elapsed: None,
        aborted: false,
        rogue_count: 0,
        rogue_writes: None,
        final_text: Some((0..23).map(|i| format!("l{i}\n")).collect()),
    };
    let content: String = (0..25).map(|_| "{}\n").collect();
    let lines = plan_section(&Some(notes), &PlanText::Content(content));
    assert!(lines.contains(&"    … (3 more lines elided; cat the plan file for full)".to_string()));
    assert!(lines.contains(&"    … 5 more entries (read the plan file for full)".to_string()));
    assert!(plan_section(&None, &PlanText::Content(String::new())).is_empty());
}

#[test]
fn the_events_of_a_file_are_its_own() {
    let all: Vec<AuditEvent> = (0..30).map(|i| event(i, "info", Some(i % 2))).collect();
    let own = events_of_file(all, 1);
    assert_eq!(own.len(), 10);
    assert!(own.iter().all(|e| e.file_id == Some(1)));
    assert_eq!(own[0].id, 1);
}

#[test]
fn status_is_one_line() {
    let mut stats = Stats::default();
    assert_eq!(
        status_line(&stats),
        "seen: 0  queued: 0  processing: 0  done: 0  failed: 0  skipped: 0  depth: 0  \
         oldest pending: —  last error: —"
    );
    stats.queued = 2;
    stats.processing = 1;
    stats.queue_depth = 3;
    stats.oldest_pending_age_secs = Some(125);
    stats.last_error = Some("timeout".to_string());
    assert_eq!(
        status_line(&stats),
        "seen: 0  queued: 2  processing: 1  done: 0  failed: 0  skipped: 0  depth: 3  \
         oldest pending: 2m 05s  last error: timeout"
    );
}

#[test]
fn events_come_as_objects_or_as_rows() {
    let row = r#"data: [1,2,"info","queued",null,"m","d"]"#;
    let e = parse_sse_block(row).unwrap();
    assert_eq!((e.id, e.ts, e.file_id), (1, 2, None));
    assert_eq!((e.level.as_str(), e.kind.as_str(), e.message.as_str()), ("info", "queued", "m"));
    assert_eq!(e.detail.as_deref(), Some("d"));
    assert!(parse_sse_block(r#"data: [1,2,"info","queued",null,"m"]"#).is_none());
    assert!(parse_sse_block(r#"data: [1,2,"info","queued",null,"m","d",0]"#).is_none());
    assert!(parse_sse_block(r#"data: {"id":1,"ts":2,"level":"info"}"#).is_none());
    assert!(parse_sse_block("data: {}").is_none());
    assert!(parse_sse_block("data: 7").is_none());
}

#[test]
fn events_have_each_member_once_and_others_as_they_like() {
    let event = |more: &str| {
        parse_sse_block(&format!(
            r#"data: {{ "id" : 1, "ts":2,"level":"info","kind":"queued","message":"a, \"b\": {{c]" {more}}}"#
        ))
    };
    let e = event("").unwrap();
    assert_eq!((e.id, e.ts, e.file_id, e.detail), (1, 2, None, None));
    assert_eq!(e.message, r#"a, "b": {c]"#);
    assert_eq!(event(r#","file_id":null,"detail":"d\\""#).unwrap().detail.as_deref(), Some("d\\"));
    assert_eq!(event(r#","more":1e999,"file_id":4"#).unwrap().file_id, Some(4));
    assert_eq!(event(r#","more":[1,{"id":7}],"more":"x""#).unwrap().id, 1);
    assert_eq!(event(r#","file\u005fid":5"#).unwrap().file_id, Some(5));
    assert!(event(r#","id":1"#).is_none());
    assert!(event(r#","\u0069d":1"#).is_none());
    assert!(event(r#","detail":null,"detail":null"#).is_none());
    assert!(event(r#","file_id":"4""#).is_none());
    assert!(event(r#","file_id":4.5"#).is_none());
    assert!(event(r#","more":01"#).is_none());
    assert!(event(",").is_none());
    let ms = members_of(r#"{"a":1, "b" : [2,{"c":":"}]}"#);
    assert_eq!(ms.len(), 2);
    assert_eq!((ms[0].name.as_str(), ms[0].value.as_str()), (r#""a""#, "1"));
    assert_eq!((ms[1].name.as_str(), ms[1].value.as_str()), (r#" "b" "#, r#" [2,{"c":":"}]"#));
    assert!(members_of("{ }").is_empty());
    let named = |n: &str, v: &str| ObjectMember { name: n.to_string(), value: v.to_string() };
    let mut row: Vec<ObjectMember> = ["id", "ts", "level", "kind", "message", "other"]
        .iter()
        .enumerate()
        .map(|(i, n)| named(n, &i.to_string()))
        .collect();
    assert_eq!(row_text_of(&row).as_deref(), Some("[0,1,2,3,null,4,null]"));
    row.push(named("kind", "9"));
    assert_eq!(row_text_of(&row), None);
    assert_eq!(row_text_of(&vec![]), None);
}
