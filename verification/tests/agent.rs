use knowledge_builder::driver::{
    abort_message, agent_timeout_secs, build_subprocess_env, check_mode, conclude, group_to_kill,
    is_blank_line, keep_tail, pi_bin, pi_name, prepare_launch, prompt_message, read_event, run_places,
    split_provider_model, Aftermath, AgentError, AgentInput, Event, Input, Next, Session,
    STDERR_DRAIN_LIMIT,
};
use knowledge_builder::env_map::EnvMap;
use knowledge_builder::plan::Plan;
use knowledge_builder::prompt::{
    agent_path_binaries_list, build_user_prompt, stage_wrapper_links, Candidate,
};

fn input() -> AgentInput {
    AgentInput {
        extracted_path: "/work/e.md".into(),
        work_dir: "/work".into(),
        vault_root: "/vault".into(),
        sources_dir: "/vault/Sources".into(),
        agent_root: "/vault/KnowledgeBase".into(),
        source_basename: "paper.pdf".into(),
        model: "openrouter/moonshotai/kimi-k2.5".into(),
        job_id: 42,
        mode: "apply".into(),
    }
}

fn env(pairs: &[(&str, &str)]) -> EnvMap {
    let mut m = EnvMap::new();
    for (k, v) in pairs {
        m.insert(k, v);
    }
    m
}

fn after(entries: Vec<knowledge_builder::plan::PlanEntry>) -> Aftermath {
    Aftermath {
        plan: Plan { path: "/work/plan".into(), entries },
        rogue_writes: vec!["/vault/x.md".into()],
        created_during_run: vec![],
        pi_stderr: "noise".into(),
        elapsed_ms: 1500,
        timeout_secs: 60,
    }
}

#[test]
fn split_model_basic() {
    assert_eq!(
        split_provider_model("openrouter/moonshotai/kimi-k2.5").unwrap(),
        ("openrouter", "moonshotai/kimi-k2.5"),
    );
    assert_eq!(
        split_provider_model("anthropic/sonnet-3-5-latest").unwrap(),
        ("anthropic", "sonnet-3-5-latest"),
    );
}

#[test]
fn split_model_rejects_no_slash() {
    assert!(matches!(split_provider_model("just-a-model"), Err(AgentError::BadModel(_))));
}

#[test]
fn split_model_rejects_empty_parts() {
    assert!(matches!(split_provider_model("/foo"), Err(AgentError::BadModel(_))));
    assert!(matches!(split_provider_model("foo/"), Err(AgentError::BadModel(_))));
}

#[test]
fn timeout_floor_is_60s() {
    assert_eq!(agent_timeout_secs(Some("10")), 60);
}

#[test]
fn timeout_default_when_unset() {
    assert_eq!(agent_timeout_secs(None), 600);
    assert_eq!(agent_timeout_secs(Some("soon")), 600);
    assert_eq!(agent_timeout_secs(Some(" 900 ")), 900);
}

#[test]
fn error_retryability_buckets() {
    assert!(!AgentError::MissingApiKey.is_retryable());
    assert!(!AgentError::PiNotFound { bin: "pi".into() }.is_retryable());
    assert!(!AgentError::BadModel("x".into()).is_retryable());
    assert!(AgentError::Protocol("x".into()).is_retryable());
    assert!(AgentError::Budget { timeout_secs: 60 }.is_retryable());
    assert!(AgentError::SkillsStaging("x".into()).is_retryable());
}

#[test]
fn build_env_strips_other_provider_keys() {
    let given = env(&[
        ("OPENROUTER_API_KEY", "secret"),
        ("OPENAI_API_KEY", "should-be-removed"),
        ("ANTHROPIC_API_KEY", "should-be-removed"),
        ("PATH", "/bin"),
    ]);
    let got = build_subprocess_env(given, &input(), &run_places("/work"), None).unwrap();
    assert!(got.get("OPENROUTER_API_KEY").is_some());
    assert!(got.get("OPENAI_API_KEY").is_none());
    assert!(got.get("ANTHROPIC_API_KEY").is_none());
    assert!(got.get("KB_PLAN_FILE").is_some());
    assert!(got.get("KB_AGENT_MODE").is_some());
    assert!(got.get("KB_VAULT_ROOT").is_some());
    assert!(got.get("KB_AGENT_ROOT").is_some());
}

#[test]
fn build_env_rejects_missing_or_key() {
    let res = build_subprocess_env(env(&[]), &input(), &run_places("/work"), None);
    assert!(matches!(res, Err(AgentError::MissingApiKey)));
}

#[test]
fn prompt_starts_with_skill_invocation() {
    let s = build_user_prompt(&input());
    assert!(s.starts_with("/skill:knowledge-builder-integrator\n"));
}

#[test]
fn prompt_contains_per_job_context() {
    let s = build_user_prompt(&input());
    for needle in &[
        "extracted_path",
        "source_basename",
        "vault_root",
        "sources_dir",
        "agent_root",
        "mode",
        "job_id",
        "kb-obsidian",
    ] {
        assert!(s.contains(needle), "prompt missing {needle}: {s}");
    }
}

#[test]
fn wrapper_dir_skips_missing_utilities_silently() {
    let n = agent_path_binaries_list().len();
    let mut found: Vec<Option<String>> = (0..n).map(|_| None).collect();
    found[0] = Some("/bin/first".into());
    let links = stage_wrapper_links(Some("/opt/kb-obsidian"), &found).unwrap();
    assert_eq!(links.len(), 2);
    assert!(links.iter().any(|l| l.target == "/opt/kb-obsidian"));
    let err = stage_wrapper_links(None, &found).unwrap_err();
    assert!(err.contains("kb-obsidian"), "unexpected error: {err}");
}

#[test]
fn launches_name_provider_model_and_key() {
    let given = env(&[("OPENROUTER_API_KEY", "secret")]);
    let l = prepare_launch(given, &input(), &run_places("/work"), Some("/o/obsidian")).unwrap();
    assert_eq!(l.provider, "openrouter");
    assert_eq!(l.model, "moonshotai/kimi-k2.5");
    assert!(l.args.contains(&"secret".to_string()));
    let mut bad = input();
    bad.model = "none".into();
    let given = env(&[("OPENROUTER_API_KEY", "secret")]);
    assert!(matches!(
        prepare_launch(given, &bad, &run_places("/work"), None),
        Err(AgentError::BadModel(_))
    ));
    bad.mode = "weird".into();
    assert!(check_mode(&bad).is_err());
    assert!(check_mode(&input()).is_ok());
    assert_eq!(pi_name(None), "pi");
    assert!(matches!(pi_bin("pi", &vec![]), Err(AgentError::PiNotFound { .. })));
    let found = vec![Candidate { path: "/b/pi".into(), is_file: true }];
    assert_eq!(pi_bin("pi", &found).unwrap(), "/b/pi");
}

#[test]
fn messages_to_the_agent_are_json_lines() {
    let m = prompt_message(&input());
    assert!(m.starts_with('{') && !m.trim_end().contains('\n'));
    assert!(m.contains("\"type\":\"prompt\""));
    assert!(abort_message().contains("\"abort\""));
}

#[test]
fn output_is_read_into_turns_and_text() {
    let mut s = Session::new();
    let lines = [
        r#"{"type":"turn_start"}"#,
        r#"{"type":"message_update","assistantMessageEvent":{"type":"text_start"}}"#,
        r#"{"type":"message_update","assistantMessageEvent":{"type":"text_delta","delta":"old"}}"#,
        r#"{"type":"turn_end"}"#,
        r#"{"type":"message_update","assistantMessageEvent":{"type":"text_start"}}"#,
        r#"{"type":"message_update","assistantMessageEvent":{"type":"text_delta","delta":"hel"}}"#,
        r#"{"type":"message_update","assistantMessageEvent":{"type":"text_delta","delta":"lo"}}"#,
        r#"{"type":"turn_end"}"#,
    ];
    for l in lines {
        assert!(matches!(s.step(Input::Line(l.to_string())), Ok(Next::Continue)), "{l}");
    }
    assert!(matches!(s.step(Input::Line(r#"{"type":"agent_end"}"#.into())), Ok(Next::Stop)));
    assert_eq!(s.turns, 2);
    assert_eq!(s.final_text(), "hello");
}

#[test]
fn bad_output_and_deadlines_end_a_run() {
    let mut s = Session::new();
    assert!(matches!(s.step(Input::Line("not json".into())), Err(AgentError::Protocol(_))));
    assert!(matches!(s.step(Input::Deadline), Ok(Next::Abort)));
    assert!(s.aborted);
    assert!(matches!(s.step(Input::Closed), Ok(Next::Stop)));
    let long = "é".repeat(300);
    assert!(matches!(read_event(&long), Err(AgentError::Protocol(_))));
    assert!(is_blank_line("  ") && !is_blank_line("x"));
    assert!(matches!(read_event(r#"{"type":"turn_end"}"#), Ok(Event::TurnEnd)));
}

#[test]
fn a_run_without_plan_and_time_is_over_budget() {
    let mut s = Session::new();
    let _ = s.step(Input::Deadline);
    let places = run_places("/work");
    let none = conclude(&s, &places, after(vec![]), "p", "m", "apply");
    assert!(matches!(none, Err(AgentError::Budget { timeout_secs: 60 })));
    let fresh = Session::new();
    let ok = conclude(&fresh, &places, after(vec![]), "p", "m", "apply").unwrap();
    assert!(!ok.aborted);
    assert_eq!(ok.elapsed_ms, 1500);
    assert_eq!(ok.rogue_writes, vec!["/vault/x.md".to_string()]);
}

#[test]
fn only_the_end_of_the_noise_is_kept() {
    let mut buf: Vec<u8> = vec![1; STDERR_DRAIN_LIMIT];
    keep_tail(&mut buf, &vec![2, 3]);
    assert_eq!(buf.len(), STDERR_DRAIN_LIMIT);
    assert_eq!(buf[buf.len() - 1], 3);
    assert_eq!(buf[0], 1);
    assert_eq!(group_to_kill(7), Some(-7));
    assert_eq!(group_to_kill(0), None);
}
