use knowledge_builder::code_stash::{restore_code, stash_code};
use knowledge_builder::json::Field;
use knowledge_builder::link_sweeper::{
    build_existing_index, enters_notes_directory, files_touched_by_plan, is_resolved, relink_files,
    relink_text, sweep_files, sweep_links_in_text, unresolved_links_in_text, NoteFile, NoteIndex,
    SweptFile, UnresolvedLink,
};
use knowledge_builder::pattern::{find_placeholders, find_wikilinks};
use knowledge_builder::plan::PlanEntry;

fn index(names: &[&str]) -> NoteIndex {
    let mut ix = NoteIndex::new();
    for n in names {
        ix.insert(n);
    }
    ix
}

fn note(path: &str) -> NoteFile {
    NoteFile { path: path.into(), canonical: Some(path.into()) }
}

fn text(path: &str, content: &str) -> SweptFile {
    SweptFile { path: path.into(), is_file: true, content: Some(content.into()) }
}

fn entry(cmd: &str, args: &[&str], applied: bool) -> PlanEntry {
    PlanEntry {
        ts: 0,
        mode: "apply".into(),
        cmd: cmd.into(),
        args: args.iter().map(|s| s.to_string()).collect(),
        applied,
        exit_code: if applied { Some(0) } else { None },
    }
}

#[test]
fn unresolved_link_replacement_renders() {
    let bare = UnresolvedLink { target: "Foo".into(), alias: None, section: None };
    assert_eq!(bare.as_replacement(), "Foo [possible linkout - elaboration needed]");
    let with_alias = UnresolvedLink { target: "Foo".into(), alias: Some("bar".into()), section: None };
    assert_eq!(with_alias.as_replacement(), "bar [possible linkout - elaboration needed]");
    let with_section =
        UnresolvedLink { target: "Foo".into(), alias: None, section: Some("Intro".into()) };
    assert_eq!(with_section.as_replacement(), "Foo (§Intro) [possible linkout - elaboration needed]");
}

#[test]
fn is_resolved_basename() {
    assert!(is_resolved("Foo", &index(&["Foo"])));
}

#[test]
fn is_resolved_with_md_suffix() {
    assert!(is_resolved("Foo.md", &index(&["Foo"])));
}

#[test]
fn is_resolved_implicit_md() {
    assert!(is_resolved("Foo", &index(&["Foo.md"])));
}

#[test]
fn is_resolved_path_form() {
    assert!(is_resolved("Topics/Foo", &index(&["Topics/Foo"])));
}

#[test]
fn replaces_unresolved_writes_back() {
    let content = "See [[Missing]] for details.\nAnd [[Other]] too.";
    let (out, replaced) = sweep_links_in_text(content, &index(&[]));
    assert_eq!(replaced.len(), 2);
    assert!(out.contains("Missing [possible linkout - elaboration needed]"));
    assert!(out.contains("Other [possible linkout - elaboration needed]"));
}

#[test]
fn keeps_resolved_link_to_vault_note() {
    let (out, replaced) = sweep_links_in_text("link [[Real]] kept", &index(&["Real"]));
    assert!(out.contains("[[Real]]"));
    assert!(replaced.is_empty());
}

#[test]
fn fenced_code_blocks_preserved() {
    let content = "```\n[[InsideFence]]\n```\nbody [[Out]] here";
    let (out, replaced) = sweep_links_in_text(content, &index(&[]));
    assert!(out.contains("[[InsideFence]]"), "fenced wikilink must remain: {out}");
    assert_eq!(replaced.len(), 1, "only `[[Out]]` should be rewritten");
    assert_eq!(replaced[0].target, "Out");
}

#[test]
fn inline_code_preserved() {
    let content = "use `[[InsideInline]]` for syntax; [[Out]] elsewhere";
    let (out, replaced) = sweep_links_in_text(content, &index(&[]));
    assert!(out.contains("`[[InsideInline]]`"));
    assert_eq!(replaced.len(), 1);
    assert_eq!(replaced[0].target, "Out");
}

#[test]
fn alias_and_section_extracted() {
    let content = "[[Target|alias]] and [[Target#Section]] and [[Target#Section|alias2]]";
    let (_, replaced) = sweep_links_in_text(content, &index(&[]));
    assert_eq!(replaced.len(), 3);
    assert_eq!(replaced[0].alias.as_deref(), Some("alias"));
    assert_eq!(replaced[1].section.as_deref(), Some("Section"));
    assert_eq!(replaced[2].alias.as_deref(), Some("alias2"));
    assert_eq!(replaced[2].section.as_deref(), Some("Section"));
}

#[test]
fn index_includes_basename_and_paths() {
    let files = vec![note("/v/KnowledgeBase/Foo.md"), note("/v/KnowledgeBase/Topics/Bar.md")];
    let idx = build_existing_index(&files, "/v", "/v/Sources");
    assert!(idx.contains("Foo"));
    assert!(idx.contains("KnowledgeBase/Foo"));
    assert!(idx.contains("KnowledgeBase/Foo.md"));
    assert!(idx.contains("Bar"));
    assert!(idx.contains("KnowledgeBase/Topics/Bar"));
}

#[test]
fn index_excludes_files_under_sources_dir() {
    let files = vec![note("/v/Sources/Should-Not-Index.md"), note("/v/KnowledgeBase/Should-Index.md")];
    let idx = build_existing_index(&files, "/v", "/v/Sources");
    assert!(idx.contains("Should-Index"));
    assert!(!idx.contains("Should-Not-Index"));
}

#[test]
fn index_excludes_obsidian_metadata() {
    assert!(!enters_notes_directory(".obsidian"));
    assert!(enters_notes_directory("KnowledgeBase"));
    let idx = build_existing_index(&vec![note("/v/KnowledgeBase/Real.md")], "/v", "/v/Sources");
    assert!(idx.contains("Real"));
    assert!(!idx.contains("workspace"));
}

#[test]
fn skips_files_outside_agent_root() {
    let stats = sweep_files(&vec![text("/v/Outside.md", "[[Missing]]")], "/v/KnowledgeBase", &index(&[]));
    assert_eq!(stats.skipped_outside_root, 1);
    assert_eq!(stats.files_examined, 0);
    assert_eq!(stats.links_replaced, 0);
}

#[test]
fn reports_unresolved_inside_agent_root_without_modifying_file() {
    let files = vec![text("/v/KnowledgeBase/New.md", "Body [[Missing]] body.")];
    let stats = sweep_files(&files, "/v/KnowledgeBase", &index(&["New"]));
    assert_eq!(stats.files_examined, 1);
    assert_eq!(stats.files_modified, 0, "sweeper must NOT modify the file");
    assert_eq!(stats.links_replaced, 1, "counted in stats only");
    assert_eq!(files[0].content.as_deref(), Some("Body [[Missing]] body."));
}

#[test]
fn relink_text_restores_simple_target_in_list() {
    let input = "- Foo [possible linkout - elaboration needed]";
    let (out, restored) = relink_text(input);
    assert_eq!(out, "- [[Foo]]");
    assert_eq!(restored, vec!["Foo".to_string()]);
}

#[test]
fn relink_text_restores_section_form_in_list() {
    let input = "- Bar (§Intro) [possible linkout - elaboration needed]";
    let (out, restored) = relink_text(input);
    assert_eq!(out, "- [[Bar#Intro]]");
    assert_eq!(restored, vec!["Bar#Intro".to_string()]);
}

#[test]
fn relink_text_preserves_complex_targets_with_dashes_and_colons() {
    let cases = &[
        (
            "- MEMO - Memory-Based Knowledge Injection [possible linkout - elaboration needed]",
            "- [[MEMO - Memory-Based Knowledge Injection]]",
            "MEMO - Memory-Based Knowledge Injection",
        ),
        (
            "- TIES-Merging: Resolving Interference When Merging Models [possible linkout - elaboration needed]",
            "- [[TIES-Merging: Resolving Interference When Merging Models]]",
            "TIES-Merging: Resolving Interference When Merging Models",
        ),
        (
            "- Retrieval-Augmented Generation [possible linkout - elaboration needed]",
            "- [[Retrieval-Augmented Generation]]",
            "Retrieval-Augmented Generation",
        ),
    ];
    for (input, expected_out, expected_target) in cases {
        let (out, restored) = relink_text(input);
        assert_eq!(&out, expected_out, "input: {input:?}");
        assert_eq!(restored, vec![expected_target.to_string()]);
    }
}

#[test]
fn relink_text_handles_multiple_sequential_list_items() {
    let input = "- A [possible linkout - elaboration needed]\n\
                 - B [possible linkout - elaboration needed]\n\
                 - C (§sec) [possible linkout - elaboration needed]";
    let (out, restored) = relink_text(input);
    assert_eq!(out, "- [[A]]\n- [[B]]\n- [[C#sec]]");
    assert_eq!(restored, vec!["A".to_string(), "B".to_string(), "C#sec".to_string()]);
}

#[test]
fn relink_text_preserves_fenced_code() {
    let input = "```\n- Looks like Foo [possible linkout - elaboration needed]\n```\n- Real Bar [possible linkout - elaboration needed]";
    let (out, restored) = relink_text(input);
    assert!(
        out.contains("```\n- Looks like Foo [possible linkout - elaboration needed]\n```"),
        "fenced block preserved verbatim, got: {out}"
    );
    assert!(out.contains("- [[Real Bar]]"));
    assert_eq!(restored, vec!["Real Bar".to_string()]);
}

#[test]
fn relink_text_preserves_trailing_prose_after_placeholder() {
    let input =
        "- Machine Translation [possible linkout - elaboration needed] — primary application";
    let (out, restored) = relink_text(input);
    assert_eq!(out, "- [[Machine Translation]] — primary application");
    assert_eq!(restored, vec!["Machine Translation".to_string()]);
}

#[test]
fn relink_text_idempotent() {
    let input = "- Foo [possible linkout - elaboration needed]";
    let (once, _) = relink_text(input);
    let (twice, restored2) = relink_text(&once);
    assert_eq!(once, twice, "second run must be no-op");
    assert!(restored2.is_empty());
}

#[test]
fn relink_text_does_not_touch_inline_mid_prose_occurrences() {
    let input = "See Foo [possible linkout - elaboration needed].";
    let (out, restored) = relink_text(input);
    assert_eq!(out, input);
    assert!(restored.is_empty());
}

#[test]
fn relink_files_rewrites_in_place_inside_agent_root() {
    let files = vec![text(
        "/v/KnowledgeBase/Recovery.md",
        "Body\n- MEMO - Memory-Embedded [possible linkout - elaboration needed]\nbody.",
    )];
    let (mut stats, rewrites) = relink_files(&files, "/v/KnowledgeBase", false);
    assert_eq!(stats.files_input, 1);
    assert_eq!(stats.files_examined, 1);
    assert_eq!(stats.links_restored, 1);
    assert_eq!(rewrites.len(), 1);
    for _ in &rewrites {
        stats.wrote();
    }
    assert_eq!(stats.files_modified, 1);
    let after = &rewrites[0].1;
    assert!(after.contains("- [[MEMO - Memory-Embedded]]"), "got: {after}");
    assert!(!after.contains("possible linkout"));
}

#[test]
fn relink_files_dry_run_does_not_write() {
    let before = "- Foo [possible linkout - elaboration needed]";
    let (stats, rewrites) =
        relink_files(&vec![text("/v/KnowledgeBase/Dry.md", before)], "/v/KnowledgeBase", true);
    assert_eq!(stats.files_modified, 0);
    assert_eq!(stats.links_restored, 1);
    assert!(rewrites.is_empty(), "dry-run must not touch the file");
}

#[test]
fn relink_files_skips_outside_agent_root() {
    let files = vec![text("/v/NotInKB.md", "- X [possible linkout - elaboration needed]")];
    let (stats, rewrites) = relink_files(&files, "/v/KnowledgeBase", false);
    assert_eq!(stats.files_examined, 0);
    assert_eq!(stats.links_restored, 0);
    assert!(rewrites.is_empty());
}

#[test]
fn resolves_to_files_created_in_same_run() {
    let idx = build_existing_index(
        &vec![note("/v/KnowledgeBase/A.md"), note("/v/KnowledgeBase/B.md")],
        "/v",
        "/v/Sources",
    );
    let files =
        vec![text("/v/KnowledgeBase/A.md", "see [[B]]"), text("/v/KnowledgeBase/B.md", "see [[A]]")];
    let stats = sweep_files(&files, "/v/KnowledgeBase", &idx);
    assert_eq!(stats.files_modified, 0, "both wikilinks resolve");
    assert_eq!(stats.links_replaced, 0);
}

#[test]
fn diagnostics_count_drift_to_nonexistent_path() {
    let missing =
        SweptFile { path: "/v/KnowledgeBase/Renamed.md".into(), is_file: false, content: None };
    let files = vec![missing, text("/v/KnowledgeBase/Real.md", "hi")];
    let stats = sweep_files(&files, "/v/KnowledgeBase", &index(&["Real"]));
    assert_eq!(stats.files_input, 2);
    assert_eq!(stats.files_examined, 1);
    assert_eq!(stats.skipped_not_a_file, 1);
    let meta = stats.as_metadata();
    assert!(meta
        .iter()
        .any(|(k, v)| k == "link_sweep_skipped_not_a_file" && matches!(v, Field::Unsigned(1))));
}

#[test]
fn skips_non_markdown_files() {
    let files = vec![text("/v/KnowledgeBase/data.json", r#"{"x":"[[Y]]"}"#)];
    let stats = sweep_files(&files, "/v/KnowledgeBase", &index(&[]));
    assert_eq!(stats.files_examined, 0);
    assert_eq!(stats.skipped_non_markdown, 1);
}

#[test]
fn extracts_create_path() {
    let plan = vec![entry("create", &["path=KnowledgeBase/Foo.md", "content=hi"], true)];
    assert_eq!(files_touched_by_plan(&plan, "/v"), vec!["/v/KnowledgeBase/Foo.md".to_string()]);
}

#[test]
fn extracts_append_with_file() {
    let plan = vec![entry("append", &["file=KnowledgeBase/Foo.md", "content=more"], true)];
    assert_eq!(files_touched_by_plan(&plan, "/v"), vec!["/v/KnowledgeBase/Foo.md".to_string()]);
}

#[test]
fn skips_unapplied() {
    let plan = vec![entry("create", &["path=Foo.md"], false)];
    assert!(files_touched_by_plan(&plan, "/v").is_empty());
}

#[test]
fn skips_property_set() {
    let plan = vec![entry("property:set", &["path=Foo.md", "year=2024"], true)];
    assert!(files_touched_by_plan(&plan, "/v").is_empty());
}

#[test]
fn skips_read_commands() {
    let plan = vec![entry("search", &["query=foo"], true)];
    assert!(files_touched_by_plan(&plan, "/v").is_empty());
}

#[test]
fn nested_code_comes_back_whole() {
    let input = "a ```x `y` z``` b `q` c";
    let kept = stash_code("CODE", input);
    assert!(!kept.text.contains('`'));
    assert_eq!(restore_code("CODE", &kept.text, &kept.blocks), input);
    let many: String = (0..12).map(|i| format!("`c{i}` ")).collect();
    let kept = stash_code("CODE", &many);
    assert_eq!(kept.blocks.len(), 13);
    assert_eq!(restore_code("CODE", &kept.text, &kept.blocks), many);
}

#[test]
fn swept_text_changes_links_only() {
    let content = "before [[Here]] `[[code]]` [[Gone|shown]] after";
    let (out, replaced) = sweep_links_in_text(content, &index(&["Here"]));
    assert_eq!(
        out,
        "before [[Here]] `[[code]]` shown [possible linkout - elaboration needed] after"
    );
    assert_eq!(replaced.len(), 1);
    assert_eq!(unresolved_links_in_text(content, &index(&["Here"])).len(), 1);
}

#[test]
fn relink_is_idempotent_with_code() {
    let input = "- `a` thing [possible linkout - elaboration needed] and `b\n```\n- X [possible linkout - elaboration needed]\n```\n* Y (§s) [possible linkout - elaboration needed] `z`";
    let (once, first) = relink_text(input);
    assert!(!first.is_empty());
    let (twice, second) = relink_text(&once);
    assert_eq!(once, twice);
    assert!(second.is_empty());
    assert!(once.contains("```\n- X [possible linkout - elaboration needed]\n```"));
}

#[test]
fn patterns_are_found_in_place() {
    let links = find_wikilinks("x [[A#s|b]] y [[C]] z");
    assert_eq!(links.captures.len(), 2);
    assert_eq!(links.pieces, vec!["x ".to_string(), " y ".to_string(), " z".to_string()]);
    let lost = find_placeholders("- A [possible linkout - elaboration needed]");
    assert_eq!(lost.captures.len(), 1);
}

#[test]
fn relink_gives_back_a_swept_item() {
    let content = "- [[Gone: a note]], see below\nmore";
    let (swept, replaced) = sweep_links_in_text(content, &index(&["Here"]));
    assert_eq!(
        swept,
        "- Gone: a note [possible linkout - elaboration needed], see below\nmore"
    );
    assert_eq!(replaced.len(), 1);
    assert_eq!(relink_text(&swept), (content.to_string(), vec!["Gone: a note".to_string()]));
}

#[test]
fn a_prose_paragraph_is_left_alone() {
    for content in [
        "Intro.\n\nSee Foo [possible linkout - elaboration needed].",
        "\nSee Foo [possible linkout - elaboration needed].",
        "- item\n\n\nSee Foo [possible linkout - elaboration needed].",
    ] {
        assert_eq!(relink_text(content), (content.to_string(), vec![]));
    }
    let (out, restored) = relink_text("Intro.\n\n  - Foo [possible linkout - elaboration needed]");
    assert_eq!(out, "Intro.\n\n  - [[Foo]]");
    assert_eq!(restored, vec!["Foo"]);
}

#[test]
fn targets_are_listed_with_their_code() {
    let (out, restored) = relink_text("- `x` foo [possible linkout - elaboration needed]");
    assert_eq!(out, "- [[`x` foo]]");
    assert_eq!(restored, vec!["`x` foo"]);
    let (_, lost) = sweep_links_in_text("[[`x` foo#`s`|`a`]]", &index(&[]));
    assert_eq!(lost[0].target, "`x` foo");
    assert_eq!(lost[0].section.as_deref(), Some("`s`"));
    assert_eq!(lost[0].alias.as_deref(), Some("`a`"));
    let named = "[[`x` foo]]";
    assert_eq!(sweep_links_in_text(named, &index(&["`x` foo"])).0, named);
}

#[test]
fn texts_with_nul_keep_their_code() {
    let token = |n: usize| format!("\0KBRELINK\0BLOCK\0{n}\0");
    let content = format!(
        "`b` {0}{0} {1} \0\n- a\0b [possible linkout - elaboration needed]",
        token(0),
        token(2)
    );
    let (once, restored) = relink_text(&content);
    assert_eq!(once, format!("`b` {0}{0} {1} \0\n- [[a\0b]]", token(0), token(2)));
    assert_eq!(restored, vec!["a\0b"]);
    assert_eq!(relink_text(&once), (once.clone(), vec![]));
    assert_eq!(sweep_links_in_text(&once, &index(&["a\0b"])).0, once);
}

#[test]
fn relinking_files_twice_writes_once() {
    let files = vec![
        text("/v/KB/a.md", "- A [possible linkout - elaboration needed]"),
        text("/v/KB/a.md", "- A [possible linkout - elaboration needed]"),
        text("/v/KB/b.txt", "- B [possible linkout - elaboration needed]"),
        text("/v/other/c.md", "- C [possible linkout - elaboration needed]"),
    ];
    let (stats, writes) = relink_files(&files, "/v/KB", false);
    assert_eq!((stats.links_restored, stats.files_examined), (1, 1));
    assert_eq!(writes, vec![("/v/KB/a.md".to_string(), "- [[A]]".to_string())]);
    let after = vec![
        text("/v/KB/a.md", "- [[A]]"),
        text("/v/KB/a.md", "- [[A]]"),
        text("/v/KB/b.txt", "- B [possible linkout - elaboration needed]"),
        text("/v/other/c.md", "- C [possible linkout - elaboration needed]"),
    ];
    let (stats, writes) = relink_files(&after, "/v/KB", false);
    assert_eq!((stats.links_restored, stats.files_modified, stats.files_examined), (0, 0, 1));
    assert!(stats.examples.is_empty() && writes.is_empty());
}
