use knowledge_builder::extractor::{
    check_source, classify_transmutation_error, conversion_request, extraction_of, has_pages,
    input_format_tag, joined_pages, page_image_name, page_images, wants_images, Converted,
    ExtractionConfig, ExtractionError, ExtractionMode, ExtractionModeResolver, ExtractionRule,
    ExtractorConfig,
};
use knowledge_builder::paths::Located;

fn rule(path: &str, mode: ExtractionMode) -> ExtractionRule {
    ExtractionRule { path: path.into(), mode }
}

#[test]
fn retryability_buckets_match_kind() {
    let cases: Vec<(ExtractionError, bool, &str)> = vec![
        (ExtractionError::Init("x".into()), false, "init"),
        (
            ExtractionError::SourceUnreadable { path: "/a".into(), detail: "x".into() },
            false,
            "source_unreadable",
        ),
        (
            ExtractionError::WorkDirUnusable { path: "/a".into(), detail: "x".into() },
            true,
            "work_dir_unusable",
        ),
        (ExtractionError::FfiNotCompiled, false, "ffi_not_compiled"),
        (ExtractionError::EmptyOutput { path: "/a".into(), format: "pdf".into() }, true, "empty_output"),
        (ExtractionError::Permanent { path: "/a".into(), detail: "x".into() }, false, "permanent"),
        (ExtractionError::Transient { path: "/a".into(), detail: "x".into() }, true, "transient"),
    ];
    for (err, retryable, kind) in &cases {
        assert_eq!(err.is_retryable(), *retryable, "{} should be retryable={}", kind, retryable);
        assert_eq!(err.kind(), *kind);
    }
}

#[test]
fn ffi_passes_through_when_compiled_in() {
    let cfg = ExtractionConfig {
        default_mode: ExtractionMode::Fast,
        rules: vec![rule("Legal", ExtractionMode::Ffi)],
    };
    let r = ExtractionModeResolver::new(cfg, true);
    assert_eq!(r.mode_for("/v/Sources/Legal/x.pdf", "/v/Sources"), ExtractionMode::Ffi);
}

#[test]
fn ffi_downgrades_to_precision_when_not_compiled_in() {
    let cfg = ExtractionConfig {
        default_mode: ExtractionMode::Fast,
        rules: vec![rule("Legal", ExtractionMode::Ffi)],
    };
    let r = ExtractionModeResolver::new(cfg, false);
    assert_eq!(r.mode_for("/v/Sources/Legal/x.pdf", "/v/Sources"), ExtractionMode::Precision);
}

#[test]
fn fast_and_precision_unaffected_by_ffi_gate() {
    let cfg = ExtractionConfig {
        default_mode: ExtractionMode::Fast,
        rules: vec![rule("ArchivePapers", ExtractionMode::Precision)],
    };
    let r_no_ffi = ExtractionModeResolver::new(cfg.clone(), false);
    let r_yes_ffi = ExtractionModeResolver::new(cfg, true);
    for path in ["ArchivePapers/x.pdf", "Other/y.pdf"] {
        let f = format!("/v/Sources/{path}");
        assert_eq!(r_no_ffi.mode_for(&f, "/v/Sources"), r_yes_ffi.mode_for(&f, "/v/Sources"));
    }
}

#[test]
fn sources_are_checked_before_they_are_read() {
    let located = |f: bool| Ok(Located { canonical: "/c/a.pdf".into(), is_file: f });
    assert_eq!(check_source("/a.pdf", located(true)).unwrap(), "/c/a.pdf");
    assert!(matches!(
        check_source("/a.pdf", located(false)),
        Err(ExtractionError::SourceUnreadable { .. })
    ));
    assert!(matches!(
        check_source("/a.pdf", Err("missing".into())),
        Err(ExtractionError::SourceUnreadable { .. })
    ));
}

#[test]
fn ffi_is_refused_where_it_is_not_built_in() {
    let cfg = ExtractorConfig::default();
    assert!(matches!(
        conversion_request(&cfg, ExtractionMode::Ffi, false),
        Err(ExtractionError::FfiNotCompiled)
    ));
    assert!(conversion_request(&cfg, ExtractionMode::Ffi, true).unwrap().use_ffi);
    assert!(conversion_request(&cfg, ExtractionMode::Precision, false).unwrap().use_precision_mode);
}

#[test]
fn engine_messages_are_classified() {
    match classify_transmutation_error("/a", "Encrypted PDF") {
        ExtractionError::Permanent { path, detail } => {
            assert_eq!(path, "/a");
            assert_eq!(detail, "Encrypted PDF");
        }
        other => panic!("{other:?}"),
    }
    match classify_transmutation_error("/a", "Unsupported file format: xyz") {
        ExtractionError::Permanent { detail, .. } => assert_eq!(
            detail,
            "Unsupported file format: xyz — hint: rebuild kb with the relevant transmutation \
             feature enabled (image-ocr, office, pdf-to-image)"
        ),
        other => panic!("{other:?}"),
    }
    match classify_transmutation_error("/a", "Some Hiccup") {
        ExtractionError::Transient { path, detail } => {
            assert_eq!(path, "/a");
            assert_eq!(detail, "Some Hiccup");
        }
        other => panic!("{other:?}"),
    }
}

#[test]
fn extract_ffi_mode_errors_when_feature_disabled() {
    match conversion_request(&ExtractorConfig::default(), ExtractionMode::Ffi, false) {
        Err(ExtractionError::FfiNotCompiled) => {}
        Err(other) => panic!("expected FfiNotCompiled, got {other:?}"),
        Ok(_) => panic!("expected FfiNotCompiled error, got success"),
    }
}

#[test]
fn extract_missing_file_is_source_unreadable() {
    match check_source("/tmp/does-not-exist.pdf", Err("No such file or directory".into())) {
        Err(ExtractionError::SourceUnreadable { .. }) => {}
        other => panic!("expected SourceUnreadable, got {other:?}"),
    }
}

#[test]
fn extract_corrupt_pdf_classified_as_permanent() {
    let e = classify_transmutation_error("/tmp/bad.pdf", "premature EOF");
    let kind = e.kind();
    assert!(
        matches!(kind, "permanent" | "empty_output"),
        "expected permanent|empty_output, got {kind} ({e:?})",
    );
}

#[test]
fn formats_and_pages() {
    assert_eq!(input_format_tag("/a/B.PDF"), "pdf");
    assert_eq!(input_format_tag("x.jpeg"), "jpg");
    assert_eq!(input_format_tag("x.htm"), "html");
    assert_eq!(input_format_tag("x.zip"), "unknown");
    assert_eq!(input_format_tag("x"), "unknown");
    assert!(has_pages("pdf") && !has_pages("png"));
    assert_eq!(page_image_name(3), "page_0003.png");
    assert_eq!(page_image_name(12345), "page_12345.png");
}

#[test]
fn documents_are_put_together() {
    let given = |pages: Vec<Option<String>>| Converted {
        pages,
        page_count: 1,
        title: Some("T".into()),
        author: None,
        elapsed_ms: 7,
    };
    let pages = vec![Some("one".to_string()), None, Some("two".to_string())];
    let whole = joined_pages(&pages);
    let config = ExtractorConfig::default();
    let x = extraction_of(&config, "/s/a.pdf", "/w", ExtractionMode::Fast, given(pages), &vec![2])
        .unwrap();
    assert!(x.images.is_empty());
    assert_eq!(x.markdown, whole);
    assert_eq!(x.metadata.format, "pdf");
    assert_eq!(x.metadata.page_count, 3);
    assert!(matches!(
        extraction_of(
            &config,
            "/s/a.pdf",
            "/w",
            ExtractionMode::Fast,
            given(vec![Some("  \n".into())]),
            &vec![]
        ),
        Err(ExtractionError::EmptyOutput { .. })
    ));
}

#[test]
fn single_assets_have_no_pages() {
    let given = |page_count: usize| Converted {
        pages: vec![Some("text".to_string())],
        page_count,
        title: None,
        author: None,
        elapsed_ms: 1,
    };
    let config = ExtractorConfig::default();
    let count = |source: &str, said: usize| {
        extraction_of(&config, source, "/w", ExtractionMode::Fast, given(said), &vec![])
            .unwrap()
            .metadata
            .page_count
    };
    assert_eq!(count("/s/notes.txt", 0), 0);
    assert_eq!(count("/s/notes.md", 0), 0);
    assert_eq!(count("/s/scan.png", 1), 0);
    assert_eq!(count("/s/page.html", 0), 1);
    assert_eq!(count("/s/table.csv", 3), 3);
    assert_eq!(count("/s/a.pdf", 0), 1);
    assert_eq!(count("/s/a.pdf", 7), 7);
}

#[test]
fn page_images_are_sorted_in_the_work_directory() {
    let names = page_images("/w", &vec![10, 2, 10000, 1, 9999]);
    assert_eq!(
        names,
        vec![
            "/w/page_0001.png",
            "/w/page_0002.png",
            "/w/page_0010.png",
            "/w/page_9999.png",
            "/w/page_10000.png",
        ]
    );
    let mut config = ExtractorConfig::default();
    config.render_page_images = true;
    assert!(wants_images(&config, "/s/a.pdf") && !wants_images(&config, "/s/a.txt"));
    let given = Converted {
        pages: vec![Some("t".to_string())],
        page_count: 2,
        title: None,
        author: None,
        elapsed_ms: 1,
    };
    let x = extraction_of(&config, "/s/a.pdf", "/w", ExtractionMode::Fast, given, &vec![2, 1]).unwrap();
    assert_eq!(x.images, vec!["/w/page_0001.png", "/w/page_0002.png"]);
}
