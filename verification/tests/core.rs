use knowledge_builder::config::{
    config_file_path, expand_all_paths, expand_tilde, load_raw, program_of, AgentProbe, CommandProbe, Config,
    ConfigError, ConfigErrors, DbProbe, OpsConfig, PathsConfig, Probes, ProcessorConfig, SourcesProbe,
    VaultProbe, WatchConfig, WorkerConfig,
};
use knowledge_builder::lock::{daemon_lock_is_held, lock_outcome, lock_path_for, LockAttempt, LockError};
use knowledge_builder::migrations::{all_migrations, pending};
use knowledge_builder::paths::{
    extension_of, file_name_of, is_inside, is_under, join_path, normalise_lexical, parent_of, path_before,
    stem_of, strip_base, validate_output, validate_processor_output, Located, OutputError, PathError,
};
use knowledge_builder::secrets::{load_secrets_from, FoundSecrets, SecretsError, SecretsLoad};
use knowledge_builder::span_fields;
use knowledge_builder::types::{default_retryable, ProcessOutput, ProcessResult, Stats, Status};

fn valid_config() -> Config {
    Config {
        paths: PathsConfig {
            vault_root: "/t/vault".into(),
            sources_dir: "/t/vault/Sources".into(),
            agent_root: "/t/vault/KnowledgeBase".into(),
            db_path: "/t/db/state.db".into(),
            log_dir: "/t/logs".into(),
        },
        watch: WatchConfig {
            extensions: vec!["pdf".into()],
            ignore_globs: vec![],
            stability_ms: 2_000,
            poll_interval_secs: 300,
            hash_chunk_bytes: 1_048_576,
        },
        worker: WorkerConfig { concurrency: 2, max_attempts: 3, backoff_secs: vec![30, 300] },
        processor: ProcessorConfig {
            command: "/t/proc.sh".into(),
            timeout_secs: 1_800,
            work_dir_root: "/t/jobs".into(),
        },
        ops: OpsConfig {
            http_bind: "127.0.0.1:7878".into(),
            log_level: "info".into(),
            log_format: "json".into(),
        },
    }
}

fn probes(cfg: &Config) -> Probes {
    Probes {
        vault: VaultProbe::Usable(cfg.paths.vault_root.clone()),
        sources: SourcesProbe::Usable(cfg.paths.sources_dir.clone()),
        agent: AgentProbe::Usable(cfg.paths.agent_root.clone()),
        command: CommandProbe::File { resolved: cfg.processor.command.clone(), mode: 0o755 },
        db: DbProbe::Usable,
        log_dir_error: None,
    }
}

#[test]
fn tilde_alone_expands() {
    let result = expand_tilde("~", Some("/Users/alice"));
    assert!(!result.starts_with('~'), "tilde was not expanded: {result}");
    assert_eq!(result, "/Users/alice");
}

#[test]
fn tilde_slash_path_expands() {
    let result = expand_tilde("~/Vault", Some("/Users/alice"));
    assert!(result.ends_with("/Vault"), "unexpected result: {result}");
    assert!(!result.starts_with('~'), "tilde was not expanded: {result}");
    assert_eq!(expand_tilde("~/Vault", None), "~/Vault");
}

#[test]
fn non_tilde_path_is_unchanged() {
    assert_eq!(expand_tilde("/absolute/path", Some("/h")), "/absolute/path");
    assert_eq!(expand_tilde("relative/path", Some("/h")), "relative/path");
}

#[test]
fn default_config_deserializes() {
    let cfg = Config::default();
    assert_eq!(cfg.watch.stability_ms, 2_000);
    assert_eq!(cfg.worker.max_attempts, 3);
    assert_eq!(cfg.worker.backoff_secs.len(), 3);
    assert_eq!(cfg.ops.http_bind, "127.0.0.1:7878");
}

#[test]
fn valid_config_passes_all_checks() {
    let cfg = valid_config();
    let p = probes(&cfg);
    assert!(cfg.validate(&p).is_ok(), "valid config failed: {:?}", cfg.validate(&p).unwrap_err());
}

#[test]
fn check1_vault_root_missing() {
    let mut cfg = valid_config();
    cfg.paths.vault_root = "/nonexistent/vault/path".into();
    let mut p = probes(&cfg);
    p.vault = VaultProbe::Inaccessible("No such file or directory".into());
    let errs = cfg.validate(&p).unwrap_err();
    assert!(errs.iter().any(|e| matches!(e, ConfigError::VaultRoot { .. })), "{errs:?}");
}

#[test]
fn check2_sources_dir_missing() {
    let mut cfg = valid_config();
    cfg.paths.sources_dir = "/nonexistent/sources".into();
    let mut p = probes(&cfg);
    p.sources = SourcesProbe::Inaccessible("No such file or directory".into());
    let errs = cfg.validate(&p).unwrap_err();
    assert!(errs.iter().any(|e| matches!(e, ConfigError::SourcesDir { .. })), "{errs:?}");
}

#[test]
fn check3_sources_not_inside_vault() {
    let mut cfg = valid_config();
    cfg.paths.sources_dir = "/t/elsewhere".into();
    let errs = cfg.validate(&probes(&cfg)).unwrap_err();
    assert!(errs.iter().any(|e| matches!(e, ConfigError::SourcesNotInsideVault { .. })), "{errs:?}");
}

#[test]
fn check4_sources_same_as_vault() {
    let mut cfg = valid_config();
    cfg.paths.sources_dir = cfg.paths.vault_root.clone();
    let errs = cfg.validate(&probes(&cfg)).unwrap_err();
    assert!(errs.iter().any(|e| matches!(e, ConfigError::SourcesSameAsVault { .. })), "{errs:?}");
}

#[test]
fn check5_processor_command_missing() {
    let mut cfg = valid_config();
    cfg.processor.command = "/nonexistent/run.sh".into();
    let mut p = probes(&cfg);
    p.command = CommandProbe::NotFound;
    let errs = cfg.validate(&p).unwrap_err();
    assert!(errs.iter().any(|e| matches!(e, ConfigError::ProcessorCommand { .. })), "{errs:?}");
}

#[test]
fn the_first_word_of_a_command_is_its_program() {
    assert_eq!(program_of("/bin/sh -c true"), "/bin/sh");
    assert_eq!(program_of("  python3\t-m x"), "python3");
    assert_eq!(program_of("run"), "run");
    assert_eq!(program_of(" "), "");
    let mut cfg = valid_config();
    cfg.processor.command = "/bin/sh -c true".into();
    let mut p = probes(&cfg);
    p.command = CommandProbe::File { resolved: "/bin/sh".into(), mode: 0o755 };
    assert!(cfg.validate(&p).is_ok());
    p.command = CommandProbe::NotFound;
    let errs = cfg.validate(&p).unwrap_err();
    assert!(errs.iter().any(|e| matches!(e, ConfigError::ProcessorCommand { detail, .. }
        if detail == "file not found at '/bin/sh'")));
}

#[test]
fn check4b_agent_root_outside_vault_rejected() {
    let mut cfg = valid_config();
    cfg.paths.agent_root = "/t/outside-vault".into();
    let errs = cfg.validate(&probes(&cfg)).unwrap_err();
    assert!(errs.iter().any(|e| matches!(e, ConfigError::AgentRootNotInsideVault { .. })), "{errs:?}");
}

#[test]
fn check4b_agent_root_overlaps_sources_rejected() {
    let mut cfg = valid_config();
    cfg.paths.agent_root = cfg.paths.sources_dir.clone();
    let errs = cfg.validate(&probes(&cfg)).unwrap_err();
    assert!(errs.iter().any(|e| matches!(e, ConfigError::AgentRootOverlapsSources { .. })), "{errs:?}");
}

#[test]
fn check4b_agent_root_inside_sources_rejected() {
    let mut cfg = valid_config();
    cfg.paths.agent_root = "/t/vault/Sources/nested-kb".into();
    let errs = cfg.validate(&probes(&cfg)).unwrap_err();
    assert!(errs.iter().any(|e| matches!(e, ConfigError::AgentRootOverlapsSources { .. })), "{errs:?}");
}

#[test]
fn check4b_agent_root_equals_vault_rejected() {
    let mut cfg = valid_config();
    cfg.paths.agent_root = cfg.paths.vault_root.clone();
    let errs = cfg.validate(&probes(&cfg)).unwrap_err();
    assert!(errs.iter().any(|e| matches!(e, ConfigError::AgentRootNotInsideVault { .. })), "{errs:?}");
}

#[test]
fn vault_root_sentinel_resolved() {
    let mut cfg = valid_config();
    cfg.paths.agent_root = "<vault_root>/AutoKB".into();
    let cfg = expand_all_paths(cfg, Some("/h"));
    assert!(cfg.paths.agent_root.ends_with("/AutoKB"), "sentinel not resolved: {}", cfg.paths.agent_root);
    assert!(!cfg.paths.agent_root.contains("<vault_root>"));
}

#[test]
fn check5_processor_command_not_executable() {
    let mut cfg = valid_config();
    cfg.processor.command = "/t/notexec.sh".into();
    let mut p = probes(&cfg);
    p.command = CommandProbe::File { resolved: "/t/notexec.sh".into(), mode: 0o644 };
    let errs = cfg.validate(&p).unwrap_err();
    assert!(errs.iter().any(|e| matches!(e, ConfigError::ProcessorCommand { .. })), "{errs:?}");
}

#[test]
fn check8_backoff_too_short() {
    let mut cfg = valid_config();
    cfg.worker.max_attempts = 5;
    cfg.worker.backoff_secs = vec![30];
    let errs = cfg.validate(&probes(&cfg)).unwrap_err();
    assert!(errs.iter().any(|e| matches!(e, ConfigError::BackoffTooShort { .. })), "{errs:?}");
}

#[test]
fn check8_backoff_zero_max_attempts() {
    let mut cfg = valid_config();
    cfg.worker.max_attempts = 0;
    cfg.worker.backoff_secs = vec![];
    if let Err(errs) = cfg.validate(&probes(&cfg)) {
        assert!(!errs.iter().any(|e| matches!(e, ConfigError::BackoffTooShort { .. })), "{errs:?}");
    }
}

#[test]
fn multiple_errors_collected() {
    let mut cfg = valid_config();
    cfg.paths.vault_root = "/no/vault".into();
    cfg.paths.sources_dir = "/no/sources".into();
    cfg.processor.command = "/no/cmd".into();
    cfg.worker.max_attempts = 4;
    cfg.worker.backoff_secs = vec![];
    let mut p = probes(&cfg);
    p.vault = VaultProbe::Inaccessible("No such file or directory".into());
    p.sources = SourcesProbe::Inaccessible("No such file or directory".into());
    p.command = CommandProbe::NotFound;
    let errs = cfg.validate(&p).unwrap_err();
    assert!(errs.len() >= 2, "{errs:?}");
    assert_eq!(errs.len(), 4, "{errs:?}");
}

#[test]
fn load_raw_succeeds_with_defaults_only() {
    let cfg = load_raw(Config::default(), Some("/h"));
    assert_eq!(cfg.worker.max_attempts, 3);
}

#[test]
fn load_raw_expands_tilde_in_vault_root() {
    let cfg = load_raw(Config::default(), Some("/h"));
    assert!(!cfg.paths.vault_root.starts_with('~'), "{}", cfg.paths.vault_root);
    assert_eq!(cfg.paths.vault_root, "/h/Vault");
}

#[test]
fn config_errors_display_has_all_items() {
    let errs = vec![
        ConfigError::VaultRoot { path: "/bad/path".into(), detail: "not found".into() },
        ConfigError::BackoffTooShort { len: 1, len_plural: "y", needed: 3, max_attempts: 4 },
    ];
    let display = ConfigErrors(errs).message();
    assert!(display.contains("[1]"), "missing item 1: {display}");
    assert!(display.contains("[2]"), "missing item 2: {display}");
}

#[test]
fn loading_reports_every_fault_at_once() {
    let cfg = valid_config();
    let mut p = probes(&cfg);
    p.db = DbProbe::NotOpened("locked".into());
    p.log_dir_error = Some("denied".into());
    let text = Config::load(cfg.clone(), Some("/h"), &p).unwrap_err();
    assert!(text.contains("2 error(s)"), "{text}");
    assert!(text.contains("locked") && text.contains("denied"));
    assert!(Config::load(cfg.clone(), Some("/h"), &probes(&cfg)).is_ok());
    assert_eq!(config_file_path(Some("/h")), "/h/.config/knowledge-builder/config.toml");
    assert_eq!(config_file_path(None), "./.config/knowledge-builder/config.toml");
}

#[test]
fn lock_path_has_dot_lock_suffix() {
    assert_eq!(lock_path_for("/some/dir/state.db"), "/some/dir/state.db.lock");
}

#[test]
fn lock_is_held_only_where_another_holds_it() {
    assert_eq!(lock_outcome("/d/s.db", LockAttempt::Locked).unwrap(), "/d/s.db.lock");
    let busy = lock_outcome("/d/s.db", LockAttempt::WouldBlock);
    assert!(matches!(busy, Err(LockError::AlreadyRunning { .. })));
    assert!(daemon_lock_is_held(&busy));
    let broken = lock_outcome("/d/s.db", LockAttempt::Failed("denied".into()));
    assert!(!daemon_lock_is_held(&broken));
    assert_eq!(broken.unwrap_err().message(), "I/O error on lock file /d/s.db.lock: denied");
}

#[test]
fn span_field_constants_are_nonempty() {
    assert!(!span_fields::JOB_ID.is_empty());
    assert!(!span_fields::PATH.is_empty());
    assert!(!span_fields::HASH.is_empty());
    assert!(!span_fields::ATTEMPT.is_empty());
    assert!(!span_fields::STEP.is_empty());
}

#[test]
fn is_inside_true_for_child() {
    assert!(is_inside("/a/b/c", "/a/b"));
}

#[test]
fn is_inside_false_for_exact_match() {
    assert!(!is_inside("/a/b", "/a/b"));
}

#[test]
fn is_inside_false_for_sibling() {
    assert!(!is_inside("/a/bc", "/a/b"));
}

#[test]
fn is_inside_false_for_parent() {
    assert!(!is_inside("/a", "/a/b"));
}

#[test]
fn is_inside_false_for_unrelated() {
    assert!(!is_inside("/x/y", "/a/b"));
}

#[test]
fn is_inside_handles_root() {
    assert!(is_inside("/a", "/"));
}

#[test]
fn paths_are_taken_apart_and_put_together() {
    assert_eq!(join_path("/a", "b/c"), "/a/b/c");
    assert_eq!(join_path("/a", "/b"), "/b");
    assert_eq!(normalise_lexical("/a/./b/../c"), "/a/c");
    assert_eq!(normalise_lexical(&normalise_lexical("/a//x/../b")), "/a/b");
    assert_eq!(file_name_of("/a/b.tar.gz").as_deref(), Some("b.tar.gz"));
    assert_eq!(extension_of("/a/b.tar.gz").as_deref(), Some("gz"));
    assert_eq!(extension_of("/a/.hidden"), None);
    assert_eq!(stem_of("/a/b.tar.gz").as_deref(), Some("b.tar"));
    assert_eq!(parent_of("/a/b").as_deref(), Some("/a"));
    assert_eq!(parent_of("/x//y/z").as_deref(), Some("/x//y"));
    assert_eq!(parent_of("///x").as_deref(), Some("/"));
    assert_eq!(parent_of("a/./b/").as_deref(), Some("a"));
    assert_eq!(parent_of("x").as_deref(), Some(""));
    assert_eq!(parent_of("./x").as_deref(), Some("."));
    assert_eq!(parent_of("//"), None);
    assert_eq!(parent_of(""), None);
    assert_eq!(strip_base("/a/b/c", "/a").as_deref(), Some("b/c"));
    assert_eq!(strip_base("/a/b//./c/", "/a/").as_deref(), Some("b//./c"));
    assert_eq!(strip_base("/a/./..", "/a").as_deref(), Some(".."));
    assert_eq!(strip_base("/a/", "/a").as_deref(), Some(""));
    assert_eq!(strip_base("a//b/", "").as_deref(), Some("a//b"));
    assert_eq!(strip_base("/ab", "/a"), None);
    for p in ["/x//y/z", "///x", "a/./b/", "x", ".", "./", "./x", "/..", "/x/..", "/.", "//", "", "a//", "../../b", "/a/.b/./"] {
        let path = std::path::Path::new(p);
        assert_eq!(parent_of(p).as_deref(), path.parent().map(|q| q.to_str().unwrap()), "{p}");
        for base in ["", "/", ".", "a", "/x", "//x/", "..", "/a"] {
            let rest = path.strip_prefix(base).ok().map(|q| q.to_str().unwrap());
            assert_eq!(strip_base(p, base).as_deref(), rest, "{p} {base}");
        }
    }
    assert!(is_under("/a", "/a"));
    assert!(path_before("/a/b", "/a.b"));
}

#[test]
fn outputs_stay_in_the_vault_and_out_of_the_sources() {
    let at = |p: &str, f: bool| Ok(Located { canonical: p.to_string(), is_file: f });
    assert_eq!(
        validate_output("/v/k/a.md", at("/v/k/a.md", true), "/v", "/v/s").unwrap(),
        "/v/k/a.md"
    );
    assert!(matches!(
        validate_output("/x/a.md", at("/x/a.md", true), "/v", "/v/s"),
        Err(PathError::OutsideVault { .. })
    ));
    assert!(matches!(
        validate_output("/v/s/a.md", at("/v/s/a.md", true), "/v", "/v/s"),
        Err(PathError::InsideSources { .. })
    ));
    assert!(matches!(
        validate_output("/v/k", at("/v/k", false), "/v", "/v/s"),
        Err(PathError::NotAFile(_))
    ));
    assert!(matches!(
        validate_output("/v/gone", Err("missing".into()), "/v", "/v/s"),
        Err(PathError::Canonicalize { .. })
    ));
}

#[test]
fn outputs_of_a_processor_stay_with_the_agent() {
    let at = |p: &str, f: bool| Ok(Located { canonical: p.to_string(), is_file: f });
    let check = |p: &str, f: bool| validate_processor_output(p, at(p, f), "/v", "/v/s", "/v/k");
    assert_eq!(check("/v/k/a.md", true).unwrap(), "/v/k/a.md");
    let out = check("/v/other/a.md", true).unwrap_err();
    assert!(matches!(&out, OutputError::OutsideAgentRoot { path, agent_root }
        if path == "/v/other/a.md" && agent_root == "/v/k"));
    assert_eq!(
        out.message(),
        "output path is not inside agent_root\n  path:       /v/other/a.md\n  agent_root: /v/k"
    );
    let sources = check("/v/s/a.md", true).unwrap_err();
    assert!(matches!(&sources, OutputError::Misplaced(PathError::InsideSources { .. })));
    assert!(sources.message().starts_with("output path is inside sources_dir"));
    assert!(matches!(
        check("/x/a.md", true),
        Err(OutputError::Misplaced(PathError::OutsideVault { .. }))
    ));
    assert!(matches!(check("/v/k", false), Err(OutputError::Misplaced(PathError::NotAFile(_)))));
}

fn secrets(content: &str, mode: u32) -> Result<SecretsLoad, SecretsError> {
    load_secrets_from("s.env", FoundSecrets::Present { mode: Some(mode), content: Ok(content.into()) })
}

#[test]
fn missing_file_is_silent_success() {
    let got = load_secrets_from("does-not-exist.env", FoundSecrets::Missing).unwrap();
    assert!(!got.loaded);
    assert!(got.entries.is_empty());
    assert!(!got.insecure_perms);
}

#[test]
fn parses_simple_key_value() {
    let got = secrets(
        "KB_LLM_MODEL=openrouter/anthropic/haiku-3.5\nOPENROUTER_API_KEY=sk-or-abc\n",
        0o600,
    )
    .unwrap();
    assert!(got.loaded);
    assert_eq!(got.entries.get("KB_LLM_MODEL"), Some("openrouter/anthropic/haiku-3.5"));
    assert_eq!(got.entries.get("OPENROUTER_API_KEY"), Some("sk-or-abc"));
    assert!(!got.insecure_perms);
}

#[test]
fn ignores_comments_and_blank_lines() {
    let got =
        secrets("# top comment\n\nKEY1=v1\n   \n  # indented comment\nKEY2=v2\n", 0o600).unwrap();
    assert_eq!(got.entries.len(), 2);
}

#[test]
fn strips_matching_quotes_only() {
    let got = secrets("A=\"double\"\nB='single'\nC=\"mismatched'\nD=plain\n", 0o600).unwrap();
    assert_eq!(got.entries.get("A"), Some("double"));
    assert_eq!(got.entries.get("B"), Some("single"));
    assert_eq!(got.entries.get("C"), Some("\"mismatched'"));
    assert_eq!(got.entries.get("D"), Some("plain"));
}

#[test]
fn tolerates_export_prefix() {
    let got = secrets("export FOO=bar\n", 0o600).unwrap();
    assert_eq!(got.entries.get("FOO"), Some("bar"));
}

#[test]
fn rejects_missing_equals() {
    let err = secrets("BADLINE\n", 0o600).unwrap_err();
    assert!(matches!(err, SecretsError::Parse { line: 1, .. }));
}

#[test]
fn rejects_invalid_key_chars() {
    let err = secrets("BAD-KEY=v\n", 0o600).unwrap_err();
    assert!(matches!(err, SecretsError::Parse { line: 1, .. }));
}

#[test]
fn flags_world_readable_perms() {
    let got = secrets("K=v\n", 0o644).unwrap();
    assert!(got.insecure_perms, "0644 should trip insecure_perms");
    assert_eq!(got.mode, Some(0o644));
    assert!(got.refusal().unwrap().contains("chmod 600"));
    assert!(secrets("K=v\n", 0o600).unwrap().refusal().is_none());
}

#[test]
fn secrets_errors_name_the_place() {
    let io = load_secrets_from("s.env", FoundSecrets::NoMetadata("denied".into())).unwrap_err();
    assert!(matches!(io, SecretsError::Io { .. }));
    let unreadable = load_secrets_from(
        "s.env",
        FoundSecrets::Present { mode: Some(0o600), content: Err("not UTF-8".into()) },
    );
    assert!(matches!(unreadable, Err(SecretsError::Io { .. })));
    let got = secrets("B=1\nA=2\nB=3\n", 0o600).unwrap();
    assert_eq!(got.keys(), vec!["A", "B"]);
    assert_eq!(got.entries.get("B"), Some("3"));
}

#[test]
fn status_words_round_trip() {
    for s in [
        Status::Seen,
        Status::Queued,
        Status::Processing,
        Status::Done,
        Status::Failed,
        Status::Skipped,
    ] {
        assert_eq!(Status::from_str(s.as_str()), Ok(s));
    }
    assert!(Status::from_str("elsewhere").unwrap_err().contains("elsewhere"));
}

#[test]
fn results_say_what_they_hold() {
    let ok = ProcessResult::Success {
        outputs: vec![ProcessOutput { path: "/a".into(), kind: "markdown".into(), bytes: 3 }],
        metadata: None,
    };
    assert!(ok.is_ok() && !ok.is_err() && !ok.is_retryable());
    assert_eq!(ok.outputs().len(), 1);
    let bad = ProcessResult::Error { error: "e".into(), retryable: true, metadata: None };
    assert!(bad.is_err() && bad.is_retryable());
    assert_eq!(bad.error_message(), Some("e"));
    assert!(bad.outputs().is_empty());
    assert!(default_retryable());
    assert_eq!(Stats::default().queue_depth, 0);
}

#[test]
fn migrations_run_once() {
    assert_eq!(pending(0).len(), all_migrations().len());
    let newest = all_migrations().last().unwrap().version;
    assert!(pending(newest).is_empty());
    assert_eq!(pending(0)[0].sql, all_migrations()[0].sql);
    assert!(all_migrations()[0].sql.contains("CREATE TABLE IF NOT EXISTS files"));
}
