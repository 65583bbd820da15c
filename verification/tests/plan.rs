use knowledge_builder::plan::{
    append_entry, entry_line, iter_plan, parse_line, plan_lines, read_plan, value_type_name, FoundPlan,
    LineRead, Plan, PlanEntry, PlanParseError,
};

fn entry(cmd: &str, args: &[&str], applied: bool) -> PlanEntry {
    PlanEntry {
        ts: 1_700_000_000,
        mode: "apply".into(),
        cmd: cmd.into(),
        args: args.iter().map(|s| s.to_string()).collect(),
        applied,
        exit_code: if applied { Some(0) } else { None },
    }
}

fn read(content: &str) -> Result<Plan, PlanParseError> {
    read_plan("plan.jsonl", &FoundPlan::Lines(plan_lines(content)))
}

#[test]
fn missing_file_returns_empty_plan() {
    let plan = read_plan("missing.jsonl", &FoundPlan::Missing).unwrap();
    assert!(plan.is_empty());
    assert_eq!(plan.summary(), "(empty plan — agent proposed no mutations)");
}

#[test]
fn parses_well_formed_entries() {
    let plan = read(
        r#"{"ts":1,"mode":"apply","cmd":"create","args":["path=KnowledgeBase/Foo.md","content=hi"],"applied":true,"exit_code":0}
{"ts":2,"mode":"apply","cmd":"property:set","args":["path=KnowledgeBase/Foo.md","year=2024"],"applied":true,"exit_code":0}
"#,
    )
    .unwrap();
    assert_eq!(plan.len(), 2);
    assert_eq!(plan.entries[0].cmd, "create");
    assert!(plan.entries[0].applied);
    assert_eq!(plan.entries[0].exit_code, Some(0));
    assert_eq!(plan.entries[1].kind(), "property_set");
}

#[test]
fn blank_lines_ignored() {
    let plan = read(
        "\n\n{\"ts\":1,\"mode\":\"shadow\",\"cmd\":\"create\",\"args\":[],\"applied\":false}\n\n",
    )
    .unwrap();
    assert_eq!(plan.len(), 1);
}

#[test]
fn missing_required_key_raises() {
    let err = read(r#"{"ts":1,"cmd":"create","args":[],"applied":false}"#).unwrap_err();
    match err {
        PlanParseError::Schema { detail, .. } => {
            assert!(detail.contains("missing required key"));
            assert!(detail.contains("\"mode\""));
        }
        other => panic!("expected Schema, got {other:?}"),
    }
}

#[test]
fn invalid_json_raises() {
    let err = read("{not json\n").unwrap_err();
    assert!(matches!(err, PlanParseError::InvalidJson { .. }));
}

#[test]
fn top_level_array_rejected() {
    let err = read("[1,2,3]\n").unwrap_err();
    match err {
        PlanParseError::Schema { detail, .. } => {
            assert!(detail.contains("top-level value must be an object"));
        }
        other => panic!("expected Schema, got {other:?}"),
    }
}

#[test]
fn plan_invalid_mode_rejected() {
    let err = read(r#"{"ts":1,"mode":"weird","cmd":"create","args":[],"applied":false}"#).unwrap_err();
    match err {
        PlanParseError::Schema { detail, .. } => {
            assert!(detail.contains("'shadow' or 'apply'"));
        }
        other => panic!("expected Schema, got {other:?}"),
    }
}

#[test]
fn kind_categorisation() {
    let cases: &[(&str, &str)] = &[
        ("create", "create"),
        ("append", "append"),
        ("prepend", "append"),
        ("daily:append", "append"),
        ("daily:prepend", "append"),
        ("property:set", "property_set"),
        ("property:remove", "property_remove"),
        ("move", "rename"),
        ("rename", "rename"),
        ("delete", "delete"),
        ("bookmark", "bookmark"),
        ("base:create", "base"),
        ("search", "other"),
    ];
    for (cmd, expected) in cases {
        let e = entry(cmd, &[], true);
        assert_eq!(e.kind(), *expected, "cmd={cmd}");
    }
}

#[test]
fn append_then_read_roundtrip() {
    let mut text = String::new();
    let e1 = entry("create", &["path=KnowledgeBase/A.md", "content=hello"], true);
    let e2 = entry("property:set", &["path=KnowledgeBase/A.md", "year=2024"], true);
    append_entry(&mut text, &e1);
    append_entry(&mut text, &e2);
    let plan = read(&text).unwrap();
    assert_eq!(plan.entries, vec![e1, e2]);
}

#[test]
fn append_writes_sorted_keys_matching_python_format() {
    let mut raw = String::new();
    let e = entry("create", &["path=KB/A.md"], true);
    append_entry(&mut raw, &e);
    let order = ["applied", "args", "cmd", "exit_code", "mode", "ts"];
    let mut last_idx = 0usize;
    for k in order {
        let needle = format!("\"{k}\"");
        let idx = raw.find(&needle).unwrap_or_else(|| panic!("key {k} not found in: {raw}"));
        assert!(idx >= last_idx, "key {k} appeared out of sorted order: {raw}");
        last_idx = idx;
    }
}

#[test]
fn path_arg_extraction() {
    assert_eq!(entry("create", &["path=KB/A.md", "content=x"], true).path_arg(), Some("KB/A.md"));
    assert_eq!(entry("append", &["file=KB/B.md"], true).path_arg(), Some("KB/B.md"));
    assert_eq!(entry("property:set", &["year=2024"], true).path_arg(), None);
    assert_eq!(
        entry("create", &["==broken"], true).path_arg(),
        None,
        "tokens that start with '=' must not crash extraction",
    );
}

#[test]
fn iter_plan_streams() {
    let mut text = String::new();
    for i in 0..50i64 {
        append_entry(
            &mut text,
            &PlanEntry {
                ts: i,
                mode: "apply".into(),
                cmd: "create".into(),
                args: vec![format!("path=KB/{i}.md")],
                applied: true,
                exit_code: Some(0),
            },
        );
    }
    let mut it = iter_plan("iter.jsonl", FoundPlan::Lines(plan_lines(&text))).unwrap();
    let mut count = 0;
    while let Some(r) = it.next() {
        r.unwrap();
        count += 1;
    }
    assert_eq!(count, 50);
}

#[test]
fn summary_renders_counts_and_kinds() {
    let plan = Plan {
        path: "x".into(),
        entries: vec![
            entry("create", &["path=A.md"], true),
            entry("create", &["path=B.md"], true),
            entry("property:set", &["path=A.md", "year=2024"], false),
        ],
    };
    let s = plan.summary();
    assert!(s.contains("plan(3 entries; applied=2)"), "got: {s}");
    assert!(s.contains("create=2"));
    assert!(s.contains("property_set=1"));
}

#[test]
fn plan_keeps_what_was_appended_before() {
    let first = entry("create", &["path=A.md", "content=line\nbreak \"quoted\""], true);
    let mut text = String::new();
    append_entry(&mut text, &first);
    let mut longer = text.clone();
    append_entry(&mut longer, &entry("delete", &["path=A.md"], false));
    assert!(longer.starts_with(&text));
    assert_eq!(read(&longer).unwrap().entries[0], first);
    assert_eq!(entry_line(&first).lines().count(), 1);
}

#[test]
fn plan_line_is_exact() {
    assert_eq!(
        entry_line(&entry("create", &["path=A.md"], true)).trim_end(),
        r#"{"applied":true,"args":["path=A.md"],"cmd":"create","exit_code":0,"mode":"apply","ts":1700000000}"#
    );
}

#[test]
fn plan_errors_say_where() {
    let err = read("{}\n").unwrap_err();
    assert!(matches!(err, PlanParseError::Schema { ref path, line_no: 1, .. } if path == "plan.jsonl"));
    let unopened = read_plan("p", &FoundPlan::Unopened("denied".into())).unwrap_err();
    assert!(matches!(unopened, PlanParseError::Io { ref source, .. } if source == "denied"));
    let torn = read_plan("p", &FoundPlan::Lines(vec![LineRead::Failed("bad bytes".into())])).unwrap_err();
    assert!(matches!(torn, PlanParseError::Io { .. }));
    assert!(iter_plan("p", FoundPlan::Unopened("denied".into())).is_err());
    assert!(torn.message().contains("bad bytes"));
}

#[test]
fn plan_rejects_other_shapes() {
    for (line, needle) in [
        (r#""text""#, "string"),
        ("1", "number"),
        ("true", "bool"),
        ("null", "null"),
        ("[]", "array"),
    ] {
        match parse_line(line, "p", 3) {
            Err(PlanParseError::Schema { detail, line_no, .. }) => {
                assert!(detail.contains(needle), "{line}: {detail}");
                assert_eq!(line_no, 3);
            }
            other => panic!("{line}: {other:?}"),
        }
    }
    assert_eq!(value_type_name(knowledge_builder::json::JsonKind::Array), "array");
    let mixed = r#"{"ts":1,"mode":"apply","cmd":"create","args":[1],"applied":true}"#;
    assert!(matches!(parse_line(mixed, "p", 1), Err(PlanParseError::Schema { .. })));
}

#[test]
fn plan_groups_every_entry_once() {
    let plan = Plan {
        path: "x".into(),
        entries: vec![
            entry("rename", &[], true),
            entry("create", &[], true),
            entry("move", &[], false),
        ],
    };
    let groups = plan.by_kind();
    assert_eq!(groups.iter().map(|g| g.entries.len()).sum::<usize>(), 3);
    assert!(groups.iter().any(|g| g.kind == "rename" && g.entries.len() == 2));
    assert!(entry("create", &[], true).is_write());
    assert!(!entry("search", &[], true).is_write());
}

#[test]
fn summary_puts_the_most_frequent_kind_first() {
    let mut entries = vec![];
    for _ in 0..4 {
        entries.push(entry("create", &[], true));
    }
    entries.push(entry("property:set", &[], true));
    entries.push(entry("property:set", &[], true));
    entries.push(entry("append", &[], false));
    let plan = Plan { path: "x".into(), entries };
    assert_eq!(
        plan.summary(),
        "plan(7 entries; applied=6): create=4, property_set=2, append=1"
    );
    let plan = Plan {
        path: "x".into(),
        entries: vec![entry("rename", &[], true), entry("bookmark", &[], true)],
    };
    assert_eq!(plan.summary(), "plan(2 entries; applied=2): bookmark=1, rename=1");
}

#[test]
fn members_of_the_wrong_type_are_refused() {
    let fault = |line: &str| match parse_line(line, "p.jsonl", 1) {
        Err(PlanParseError::Schema { line_no: 1, detail, .. }) => detail,
        other => panic!("{other:?}"),
    };
    assert_eq!(
        fault(r#"{"ts":"x","mode":"apply","cmd":5,"args":[],"applied":"yes"}"#),
        "plan entry 'ts' must be an integer"
    );
    assert_eq!(
        fault(r#"{"ts":1.5,"mode":"apply","cmd":"create","args":[],"applied":true}"#),
        "plan entry 'ts' must be an integer"
    );
    assert_eq!(
        fault(r#"{"ts":1,"mode":"apply","cmd":5,"args":[],"applied":true}"#),
        "plan entry 'cmd' must be a string"
    );
    assert_eq!(
        fault(r#"{"ts":1,"mode":"apply","cmd":"create","args":[],"applied":"yes"}"#),
        "plan entry 'applied' must be a boolean"
    );
}

#[test]
fn keys_of_a_line_stand_in_order() {
    let line = entry_line(&entry("create", &["path=A.md"], true));
    assert_eq!(
        line,
        "{\"applied\":true,\"args\":[\"path=A.md\"],\"cmd\":\"create\",\"exit_code\":0,\"mode\":\"apply\",\"ts\":1700000000}\n"
    );
}
