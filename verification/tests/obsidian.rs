use knowledge_builder::obsidian::{
    allowlist_list, applied_entry, classify, decide, error_report, obsidian_name, parse_mode,
    plan_file_path, real_obsidian_bin, shadow_entry, shadow_report, Classification, Decision, Mode,
    WrapperEnv,
};
use knowledge_builder::plan::{append_entry, plan_lines, read_plan, FoundPlan, PlanEntry};
use knowledge_builder::prompt::{search_places, Candidate};

fn env(mode: Option<&str>) -> WrapperEnv {
    WrapperEnv {
        agent_mode: mode.map(|s| s.to_string()),
        plan_file: Some("/t/plan.jsonl".into()),
        vault_root: Some("/t/Vault".into()),
        sources_dir: Some("/t/Vault/Sources".into()),
        agent_root: Some("/t/Vault/KnowledgeBase".into()),
    }
}

fn words(w: &[&str]) -> Vec<String> {
    w.iter().map(|s| s.to_string()).collect()
}

fn run(w: &[&str], e: &WrapperEnv) -> Decision {
    decide(&words(w), e)
}

fn refusal(w: &[&str], e: &WrapperEnv) -> String {
    match run(w, e) {
        Decision::Refuse(m) => m,
        other => panic!("{w:?} was not refused: {other:?}"),
    }
}

fn accepted_write(d: Decision) -> bool {
    matches!(d, Decision::PassWrite { .. } | Decision::RecordOnly { .. })
}

fn recorded(entry: &PlanEntry) -> Vec<PlanEntry> {
    let mut text = String::new();
    append_entry(&mut text, entry);
    read_plan("/t/plan.jsonl", &FoundPlan::Lines(plan_lines(&text))).unwrap().entries
}

#[test]
fn read_command_passes_through_apply_mode() {
    match run(&["search", "query=foo"], &env(Some("apply"))) {
        Decision::PassRead { cmd, args } => {
            assert_eq!(cmd, "search");
            assert_eq!(args, words(&["query=foo"]));
        }
        other => panic!("{other:?}"),
    }
}

#[test]
fn read_command_passes_through_shadow_mode() {
    match run(&["search", "query=foo"], &env(Some("shadow"))) {
        Decision::PassRead { cmd, args } => {
            assert_eq!(cmd, "search");
            assert_eq!(args, words(&["query=foo"]));
        }
        other => panic!("{other:?}"),
    }
}

#[test]
fn write_in_apply_mode_passes_through_and_records_plan() {
    match run(&["create", "path=KnowledgeBase/Foo.md", "content=hello"], &env(Some("apply"))) {
        Decision::PassWrite { plan_file, cmd, args } => {
            assert_eq!(plan_file, "/t/plan.jsonl");
            let entries = recorded(&applied_entry(1, &cmd, &args, 0));
            assert_eq!(entries.len(), 1);
            assert_eq!(entries[0].mode, "apply");
            assert_eq!(entries[0].cmd, "create");
            assert!(entries[0].applied);
            assert_eq!(entries[0].exit_code, Some(0));
            assert_eq!(entries[0].args[0], "path=KnowledgeBase/Foo.md");
        }
        other => panic!("{other:?}"),
    }
}

#[test]
fn apply_records_failure_when_obsidian_returns_nonzero() {
    match run(&["create", "path=KnowledgeBase/Foo.md", "content=x"], &env(Some("apply"))) {
        Decision::PassWrite { cmd, args, .. } => {
            let e = recorded(&applied_entry(1, &cmd, &args, 3));
            assert_eq!(e.len(), 1);
            assert!(!e[0].applied);
            assert_eq!(e[0].exit_code, Some(3));
        }
        other => panic!("{other:?}"),
    }
}

#[test]
fn write_in_shadow_logs_plan_and_skips_obsidian() {
    match run(&["create", "path=KnowledgeBase/Foo.md", "content=x"], &env(Some("shadow"))) {
        Decision::RecordOnly { cmd, args, .. } => {
            let report = shadow_report(&cmd, &args);
            assert!(report.contains("\"mode\":\"shadow\""));
            assert!(report.contains("\"status\":\"ok\""));
            let e = recorded(&shadow_entry(1, &cmd, &args));
            assert_eq!(e.len(), 1);
            assert!(!e[0].applied);
            assert!(e[0].exit_code.is_none());
        }
        other => panic!("{other:?}"),
    }
}

#[test]
fn blocked_command_rejected() {
    let m = refusal(&["eval", "code=alert(1)"], &env(None));
    assert!(m.contains("blocked by kb-obsidian policy"));
    assert!(error_report(&m).contains("blocked by kb-obsidian policy"));
}

#[test]
fn unknown_command_rejected() {
    assert!(refusal(&["totally-not-a-command"], &env(None)).contains("not in the kb-obsidian allowlist"));
}

#[test]
fn missing_plan_file_env_rejected() {
    let mut e = env(None);
    e.plan_file = None;
    assert!(refusal(&["search", "query=foo"], &e).contains("KB_PLAN_FILE not set"));
}

#[test]
fn wrapper_integration_invalid_mode_rejected() {
    assert!(refusal(&["search", "query=foo"], &env(Some("weird"))).contains("KB_AGENT_MODE must be"));
}

#[test]
fn dash_prefixed_argument_rejected() {
    assert!(refusal(&["create", "--path=KnowledgeBase/Foo.md"], &env(None)).contains("POSIX-style"));
}

#[test]
fn path_inside_sources_dir_rejected() {
    let m = refusal(&["create", "path=Sources/secret.md", "content=x"], &env(None));
    assert!(m.contains("inside sources_dir"));
}

#[test]
fn path_outside_vault_root_rejected() {
    let m = refusal(&["create", "path=/etc/passwd", "content=x"], &env(None));
    assert!(m.contains("outside vault_root"));
}

#[test]
fn path_outside_agent_root_rejected() {
    let m = refusal(&["create", "path=Personal/Diary.md", "content=x"], &env(None));
    assert!(m.contains("outside agent_root"));
}

#[test]
fn path_inside_agent_root_accepted() {
    assert!(accepted_write(run(&["create", "path=KnowledgeBase/Topics/Foo.md", "content=x"], &env(None))));
}

#[test]
fn relative_path_under_vault_root_accepted() {
    assert!(accepted_write(run(&["create", "path=KnowledgeBase/Foo.md", "content=x"], &env(None))));
}

#[test]
fn agent_root_enforcement_skipped_when_unset() {
    let mut e = env(None);
    e.agent_root = None;
    assert!(accepted_write(run(&["create", "path=Personal/Diary.md", "content=x"], &e)));
}

#[test]
fn file_arg_with_slash_validated_against_agent_root() {
    let m = refusal(&["append", "file=Personal/Diary.md", "content=x"], &env(None));
    assert!(m.contains("outside agent_root"));
}

#[test]
fn bare_file_wikilink_skips_path_validation() {
    assert!(accepted_write(run(&["append", "file=SomeNote", "content=x"], &env(None))));
}

#[test]
fn name_arg_with_slash_validated() {
    let m = refusal(&["create", "name=../escape", "content=x"], &env(None));
    assert!(m.contains("outside agent_root") || m.contains("outside vault_root"));
}

#[test]
fn plan_entries_have_sorted_keys_for_byte_compat_with_python_wrapper() {
    let mut raw = String::new();
    append_entry(&mut raw, &applied_entry(5, "create", &words(&["path=KnowledgeBase/A.md", "content=x"]), 0));
    let mut prev_idx = 0usize;
    for k in ["applied", "args", "cmd", "exit_code", "mode", "ts"] {
        let needle = format!("\"{k}\"");
        let idx = raw.find(&needle).unwrap_or_else(|| panic!("key {k} not found in plan line: {raw}"));
        assert!(idx >= prev_idx, "key {k} appeared out of order in {raw}");
        prev_idx = idx;
    }
}

#[test]
fn every_path_token_of_a_write_is_checked() {
    let e = env(Some("apply"));
    for w in [
        vec!["create", "path=/etc/passwd", "path=KnowledgeBase/A.md"],
        vec!["create", "path=KnowledgeBase/A.md", "path=/etc/passwd"],
        vec!["move", "path=KnowledgeBase/A.md", "to=Escape.md"],
        vec!["move", "path=KnowledgeBase/A.md", "to=KnowledgeBase/../../x.md"],
        vec!["create", "path=Diary.md"],
    ] {
        assert!(matches!(run(&w, &e), Decision::Refuse(_)), "{w:?}");
    }
    assert!(matches!(
        run(&["move", "path=KnowledgeBase/A.md", "to=KnowledgeBase/B.md"], &e),
        Decision::PassWrite { .. }
    ));
    assert!(matches!(run(&["create", "-x"], &e), Decision::Refuse(_)));
    assert!(matches!(run(&[], &e), Decision::Refuse(_)));
}

#[test]
fn commands_fall_into_one_class() {
    assert_eq!(classify("search"), Classification::Read);
    assert_eq!(classify("create"), Classification::Write);
    assert_eq!(classify("eval"), Classification::Blocked);
    assert_eq!(classify("nonsense"), Classification::Unknown);
    let allowed = allowlist_list();
    let mut sorted = allowed.clone();
    sorted.sort();
    assert_eq!(allowed, sorted);
    for c in allowed {
        assert!(matches!(classify(c), Classification::Read | Classification::Write));
    }
}

#[test]
fn environment_words_are_read() {
    assert!(matches!(parse_mode(&None), Ok(Mode::Apply)));
    assert!(matches!(parse_mode(&Some("apply".into())), Ok(Mode::Apply)));
    assert!(parse_mode(&Some("other".into())).is_err());
    assert_eq!(plan_file_path(&Some("/t/p".into())), Ok("/t/p".to_string()));
    assert!(plan_file_path(&None).is_err());
    assert_eq!(obsidian_name(None), "obsidian");
    assert_eq!(obsidian_name(Some("/opt/o")), "/opt/o");
    let places = search_places("obsidian", &words(&["/a", "/b"]));
    assert_eq!(places, words(&["/a/obsidian", "/b/obsidian"]));
    let found: Vec<Candidate> =
        places.iter().map(|p| Candidate { path: p.clone(), is_file: p == "/b/obsidian" }).collect();
    assert_eq!(real_obsidian_bin("obsidian", &found), Ok("/b/obsidian".to_string()));
    assert!(real_obsidian_bin("obsidian", &vec![]).unwrap_err().contains("'obsidian' not found on PATH"));
}
