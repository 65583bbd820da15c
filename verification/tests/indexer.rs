use knowledge_builder::indexer::{
    audit_vault_diff, enters_directory, newly_created, plan_candidates, planned_paths, snapshot_vault,
    VaultSnapshot, WalkedFile,
};
use knowledge_builder::plan::{Plan, PlanEntry};

fn file(path: &str, size: u64) -> WalkedFile {
    WalkedFile { path: path.into(), canonical: Some(path.into()), meta: Some((1, 2, size)) }
}

fn snapshot(paths: &[&str]) -> VaultSnapshot {
    let files: Vec<WalkedFile> = paths.iter().map(|p| file(p, 1)).collect();
    snapshot_vault(&files, "/v/Sources")
}

fn entry(cmd: &str, args: &[&str], applied: bool) -> PlanEntry {
    PlanEntry {
        ts: 0,
        mode: "apply".into(),
        cmd: cmd.into(),
        args: args.iter().map(|s| s.to_string()).collect(),
        applied,
        exit_code: if applied { Some(0) } else { None },
    }
}

fn audit(before: &VaultSnapshot, after: &VaultSnapshot, entries: Vec<PlanEntry>) -> Vec<String> {
    let plan = Plan { path: String::new(), entries };
    audit_vault_diff(before, after, &planned_paths(&plan_candidates(&plan, "/v")))
}

#[test]
fn snapshot_excludes_sources_dir_and_obsidian_metadata() {
    let snap = snapshot(&["/v/KnowledgeBase/Real.md", "/v/Sources/hidden-source.pdf"]);
    assert!(snap.contains("/v/KnowledgeBase/Real.md"));
    assert!(!snap.contains("/v/Sources/hidden-source.pdf"));
    assert!(!enters_directory(".obsidian", Some("/v/.obsidian"), "/v/Sources"));
    assert!(!enters_directory("Sources", Some("/v/Sources"), "/v/Sources"));
    assert!(enters_directory("KnowledgeBase", Some("/v/KnowledgeBase"), "/v/Sources"));
}

#[test]
fn audit_finds_unplanned_creation_as_rogue() {
    let before = snapshot(&[]);
    let after = snapshot(&["/v/KnowledgeBase/Rogue.md"]);
    let rogue = audit(&before, &after, vec![]);
    assert_eq!(rogue.len(), 1, "rogue list: {rogue:?}");
    assert!(rogue[0].ends_with("Rogue.md"));
}

#[test]
fn audit_ignores_planned_creation() {
    let before = snapshot(&[]);
    let after = snapshot(&["/v/KnowledgeBase/Note.md"]);
    let rogue =
        audit(&before, &after, vec![entry("create", &["path=KnowledgeBase/Note.md", "content=x"], true)]);
    assert!(rogue.is_empty(), "rogue list: {rogue:?}");
}

#[test]
fn newly_created_lists_all_appearances() {
    let before = snapshot(&[]);
    let after = snapshot(&["/v/KnowledgeBase/A.md", "/v/KnowledgeBase/B.md"]);
    let created = newly_created(&before, &after);
    assert_eq!(created.len(), 2);
}

#[test]
fn audit_sees_changes_and_removals() {
    let before = snapshot_vault(&vec![file("/v/a.md", 1), file("/v/b.md", 1)], "/v/Sources");
    let after = snapshot_vault(&vec![file("/v/a.md", 2)], "/v/Sources");
    let rogue = audit(&before, &after, vec![]);
    assert!(rogue.iter().any(|p| p.ends_with("a.md")), "{rogue:?}");
    assert_eq!(audit(&after, &after, vec![]), Vec::<String>::new());
    assert_eq!(newly_created(&before, &after), Vec::<String>::new());
}

#[test]
fn snapshot_keeps_paths_apart() {
    let snap = snapshot(&["/v/a.md", "/v/a.md", "/v/b.md"]);
    assert_eq!(snap.len(), 2);
    assert!(!snap.is_empty());
    assert_eq!(snap.get("/v/b.md").unwrap().size, 1);
    assert!(snap.get("/v/c.md").is_none());
}
