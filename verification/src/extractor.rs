//! Turning documents into markdown: which way a file is read, what is made of the
//! pages that come back, and what each failure means for the job.

use vstd::prelude::*;
use vstd::string::*;

use crate::display;
use crate::number;
use crate::number::count_text;
use crate::paths;
use crate::paths::{extension_of, is_under, join_path, Located};
use crate::text;
use crate::text::{has_text, is_listed, lowercase, lowered, same_text, trimmed};

verus! {

// ---------------------------------------------------------------- errors

/// Why a document could not be extracted.
#[derive(Debug, Clone)]
pub enum ExtractionError {
    /// The converter could not be set up.
    Init(String),
    /// The source is not there, is no regular file, or cannot be read.
    SourceUnreadable { path: String, detail: String },
    /// The directory of the job cannot be used.
    WorkDirUnusable { path: String, detail: String },
    /// The way asked for is not built in.
    FfiNotCompiled,
    /// The converter gave nothing.
    EmptyOutput { path: String, format: String },
    /// The document itself is at fault.
    Permanent { path: String, detail: String },
    /// Something else went wrong.
    Transient { path: String, detail: String },
}

impl ExtractionError {
    /// The message that a user sees.
    pub open spec fn text(&self) -> Seq<char> {
        match *self {
            ExtractionError::Init(m) => "could not initialise the extractor: "@ + m@,
            ExtractionError::SourceUnreadable { path, detail } => "source unreadable "@ + path@
                + ": "@ + detail@,
            ExtractionError::WorkDirUnusable { path, detail } => "work_dir unusable "@ + path@
                + ": "@ + detail@,
            ExtractionError::FfiNotCompiled =>
                "extraction mode 'ffi' is not available in this build of kb. Rebuild with `cargo build --release --features docling-ffi` or change the rule to `mode = \"precision\"` in config.toml."@,
            ExtractionError::EmptyOutput { path, format } =>
                "transmutation produced empty markdown for "@ + path@ + " ("@ + format@ + ")"@,
            ExtractionError::Permanent { path, detail } => "permanent extraction failure for "@
                + path@ + ": "@ + detail@,
            ExtractionError::Transient { path, detail } => "transient extraction failure for "@
                + path@ + ": "@ + detail@,
        }
    }

    /// The message that a user sees.
    pub fn message(&self) -> (r: String)
        ensures
            r@ == self.text(),
    {
        match self {
            ExtractionError::Init(m) => {
                let mut s = String::from_str("could not initialise the extractor: ");
                s.append(m.as_str());
                s
            },
            ExtractionError::SourceUnreadable { path, detail } => located(
                "source unreadable ",
                path.as_str(),
                detail.as_str(),
            ),
            ExtractionError::WorkDirUnusable { path, detail } => located(
                "work_dir unusable ",
                path.as_str(),
                detail.as_str(),
            ),
            ExtractionError::FfiNotCompiled => String::from_str(
                "extraction mode 'ffi' is not available in this build of kb. Rebuild with `cargo build --release --features docling-ffi` or change the rule to `mode = \"precision\"` in config.toml.",
            ),
            ExtractionError::EmptyOutput { path, format } => {
                let mut s = String::from_str("transmutation produced empty markdown for ");
                s.append(path.as_str());
                s.append(" (");
                s.append(format.as_str());
                s.append(")");
                s
            },
            ExtractionError::Permanent { path, detail } => located(
                "permanent extraction failure for ",
                path.as_str(),
                detail.as_str(),
            ),
            ExtractionError::Transient { path, detail } => located(
                "transient extraction failure for ",
                path.as_str(),
                detail.as_str(),
            ),
        }
    }

    /// Whether the job should be tried again later.
    pub fn is_retryable(&self) -> (b: bool)
        ensures
            b == (self is WorkDirUnusable || self is EmptyOutput || self is Transient),
    {
        match self {
            ExtractionError::WorkDirUnusable { .. } => true,
            ExtractionError::EmptyOutput { .. } => true,
            ExtractionError::Transient { .. } => true,
            _ => false,
        }
    }

    /// The tag by which the failure is counted.
    pub open spec fn tag(&self) -> Seq<char> {
        match *self {
            ExtractionError::Init(_) => "init"@,
            ExtractionError::SourceUnreadable { .. } => "source_unreadable"@,
            ExtractionError::WorkDirUnusable { .. } => "work_dir_unusable"@,
            ExtractionError::FfiNotCompiled => "ffi_not_compiled"@,
            ExtractionError::EmptyOutput { .. } => "empty_output"@,
            ExtractionError::Permanent { .. } => "permanent"@,
            ExtractionError::Transient { .. } => "transient"@,
        }
    }

    /// The tag by which the failure is counted.
    pub fn kind(&self) -> (r: &'static str)
        ensures
            r@ == self.tag(),
    {
        match self {
            ExtractionError::Init(_) => "init",
            ExtractionError::SourceUnreadable { .. } => "source_unreadable",
            ExtractionError::WorkDirUnusable { .. } => "work_dir_unusable",
            ExtractionError::FfiNotCompiled => "ffi_not_compiled",
            ExtractionError::EmptyOutput { .. } => "empty_output",
            ExtractionError::Permanent { .. } => "permanent",
            ExtractionError::Transient { .. } => "transient",
        }
    }
}

fn located(front: &str, path: &str, detail: &str) -> (r: String)
    ensures
        r@ == front@ + path@ + ": "@ + detail@,
{
    let mut s = String::from_str(front);
    s.append(path);
    s.append(": ");
    s.append(detail);
    s
}

// ---------------------------------------------------------------- modes

/// How thoroughly a document is read.
#[derive(Debug, Clone, Copy, PartialEq, Eq, Structural)]
pub enum ExtractionMode {
    Fast,
    Precision,
    /// Only in builds that hold the foreign library.
    Ffi,
}

impl Default for ExtractionMode {
    fn default() -> (r: ExtractionMode)
        ensures
            r == ExtractionMode::Fast,
    {
        ExtractionMode::Fast
    }
}

/// Files below a directory of the sources are read in a mode of their own.
#[derive(Debug, Clone)]
pub struct ExtractionRule {
    /// The directory, seen from the sources.
    pub path: String,
    pub mode: ExtractionMode,
}

/// The mode for each file: that of the first rule whose directory holds it, or the
/// default.
#[derive(Debug, Clone)]
pub struct ExtractionConfig {
    pub default_mode: ExtractionMode,
    pub rules: Vec<ExtractionRule>,
}

/// The mode of the first rule, from `from` on, whose directory holds the file.
pub open spec fn ruled_mode(
    rules: Seq<ExtractionRule>,
    file: Seq<char>,
    sources: Seq<char>,
    from: int,
) -> Option<ExtractionMode>
    decreases rules.len() - from,
{
    if from < 0 || from >= rules.len() {
        None
    } else if paths::under(file, paths::join(sources, rules[from].path@)) {
        Some(rules[from].mode)
    } else {
        ruled_mode(rules, file, sources, from + 1)
    }
}

/// The mode that the configuration asks for.
pub open spec fn configured_mode(
    cfg: ExtractionConfig,
    file: Seq<char>,
    sources: Seq<char>,
) -> ExtractionMode {
    match ruled_mode(cfg.rules@, file, sources, 0) {
        Some(m) => m,
        None => cfg.default_mode,
    }
}

impl ExtractionConfig {
    /// The mode that the configuration asks for.
    pub fn mode_for(&self, file: &str, sources_dir: &str) -> (r: ExtractionMode)
        ensures
            r == configured_mode(*self, file@, sources_dir@),
    {
        let mut i: usize = 0;
        while i < self.rules.len()
            invariant
                i <= self.rules@.len(),
                ruled_mode(self.rules@, file@, sources_dir@, 0) == ruled_mode(
                    self.rules@,
                    file@,
                    sources_dir@,
                    i as int,
                ),
            decreases self.rules@.len() - i,
        {
            let dir = join_path(sources_dir, self.rules[i].path.as_str());
            if is_under(file, dir.as_str()) {
                return self.rules[i].mode;
            }
            i = i + 1;
        }
        self.default_mode
    }
}

/// Finds the mode for a file, given what is built in.
#[derive(Debug, Clone)]
pub struct ExtractionModeResolver {
    pub cfg: ExtractionConfig,
    pub ffi_available: bool,
}

/// The mode in which a file is read: the one asked for, or the next best where that
/// is not built in.
pub open spec fn granted_mode(asked: ExtractionMode, ffi_available: bool) -> ExtractionMode {
    if asked == ExtractionMode::Ffi && !ffi_available {
        ExtractionMode::Precision
    } else {
        asked
    }
}

impl ExtractionModeResolver {
    /// A resolver for a configuration.
    pub fn new(cfg: ExtractionConfig, ffi_available: bool) -> (r: ExtractionModeResolver)
        ensures
            r.cfg == cfg,
            r.ffi_available == ffi_available,
    {
        ExtractionModeResolver { cfg, ffi_available }
    }

    /// The mode in which a file is read.
    pub fn mode_for(&self, file: &str, sources_dir: &str) -> (r: ExtractionMode)
        ensures
            r == granted_mode(configured_mode(self.cfg, file@, sources_dir@), self.ffi_available),
    {
        let asked = self.cfg.mode_for(file, sources_dir);
        if asked == ExtractionMode::Ffi && !self.ffi_available {
            ExtractionMode::Precision
        } else {
            asked
        }
    }
}

// ---------------------------------------------------------------- configuration

/// How the extractor works where a call does not say otherwise.
#[derive(Debug, Clone)]
pub struct ExtractorConfig {
    pub default_mode: ExtractionMode,
    /// The language of text in images.
    pub ocr_language: String,
    /// Whether a picture of each page is made.
    pub render_page_images: bool,
}

impl Default for ExtractorConfig {
    fn default() -> (r: ExtractorConfig)
        ensures
            r.default_mode == ExtractionMode::Fast,
            r.ocr_language@ == "eng"@,
            !r.render_page_images,
    {
        ExtractorConfig {
            default_mode: ExtractionMode::Fast,
            ocr_language: String::from_str("eng"),
            render_page_images: false,
        }
    }
}

/// What the converter is told.
#[derive(Debug, Clone)]
pub struct ConversionRequest {
    pub optimize_for_llm: bool,
    pub split_pages: bool,
    pub ocr_language: String,
    pub use_precision_mode: bool,
    pub use_ffi: bool,
}

// ---------------------------------------------------------------- formats

/// The tag for a file's extension, `unknown` where there is none or it is not known.
pub open spec fn format_of(path: Seq<char>) -> Seq<char> {
    match paths::extension(path) {
        None => "unknown"@,
        Some(e) => {
            let ext = text::lower_ascii(e);
            if plain_formats().contains(ext) {
                ext
            } else if ext == "jpeg"@ {
                "jpg"@
            } else if ext == "tif"@ {
                "tiff"@
            } else if ext == "htm"@ {
                "html"@
            } else {
                "unknown"@
            }
        },
    }
}

/// The extensions that are their own tags.
pub open spec fn plain_formats() -> Seq<Seq<char>> {
    seq![
        "pdf"@,
        "docx"@,
        "xlsx"@,
        "pptx"@,
        "ppt"@,
        "png"@,
        "jpg"@,
        "gif"@,
        "webp"@,
        "bmp"@,
        "tiff"@,
        "txt"@,
        "md"@,
        "html"@,
        "csv"@,
    ]
}

/// The tag for a file's extension.
pub fn input_format_tag(path: &str) -> (r: String)
    ensures
        r@ == format_of(path@),
{
    let ext = match extension_of(path) {
        Some(e) => lowered(e.as_str()),
        None => {
            return String::from_str("unknown");
        },
    };
    let plain: Vec<&'static str> = vec![
        "pdf",
        "docx",
        "xlsx",
        "pptx",
        "ppt",
        "png",
        "jpg",
        "gif",
        "webp",
        "bmp",
        "tiff",
        "txt",
        "md",
        "html",
        "csv",
    ];
    assert(text::literals(plain@) =~= plain_formats());
    if is_listed(ext.as_str(), &plain) {
        ext
    } else if same_text(ext.as_str(), "jpeg") {
        String::from_str("jpg")
    } else if same_text(ext.as_str(), "tif") {
        String::from_str("tiff")
    } else if same_text(ext.as_str(), "htm") {
        String::from_str("html")
    } else {
        String::from_str("unknown")
    }
}

/// Whether pictures of the pages can be made.
pub fn has_pages(format: &str) -> (b: bool)
    ensures
        b == (format@ == "pdf"@ || format@ == "docx"@ || format@ == "pptx"@),
{
    same_text(format, "pdf") || same_text(format, "docx") || same_text(format, "pptx")
}

/// Whether a document of a format is a single asset, without pages, slides or sheets:
/// plain text or a picture.
pub open spec fn single_asset(format: Seq<char>) -> bool {
    asset_formats().contains(format)
}

/// The formats of single assets.
pub open spec fn asset_formats() -> Seq<Seq<char>> {
    seq![
        "txt"@,
        "md"@,
        "png"@,
        "jpg"@,
        "gif"@,
        "webp"@,
        "bmp"@,
        "tiff"@,
    ]
}

/// Whether a document of a format is a single asset.
pub fn is_single_asset(format: &str) -> (b: bool)
    ensures
        b == single_asset(format@),
{
    let names: Vec<&'static str> = vec![
        "txt",
        "md",
        "png",
        "jpg",
        "gif",
        "webp",
        "bmp",
        "tiff",
    ];
    assert(text::literals(names@) =~= asset_formats());
    is_listed(format, &names)
}

/// How many pages a document has, given how many it says and how many came: none where
/// it is a single asset.
pub open spec fn pages_counted(format: Seq<char>, said: nat, came: nat) -> nat {
    if single_asset(format) {
        0
    } else if said >= came {
        said
    } else {
        came
    }
}

/// The file name for the picture of page `n`.
pub open spec fn page_name(n: nat) -> Seq<char> {
    "page_"@ + display::four_digits(n) + ".png"@
}

/// The file name for the picture of page `n`.
pub fn page_image_name(n: usize) -> (r: String)
    ensures
        r@ == page_name(n as nat),
{
    let digits = count_text(n);
    let len: usize = digits.as_str().unicode_len();
    let mut s = String::from_str("page_");
    if len < 4 {
        let mut all = text::repeated('0', 4 - len);
        all.append(digits.as_str());
        s.append(all.as_str());
    } else {
        s.append(digits.as_str());
    }
    s.append(".png");
    s
}

/// The places for the pictures of pages, in the order of `numbers`.
pub open spec fn page_places(work_dir: Seq<char>, numbers: Seq<usize>) -> Seq<Seq<char>> {
    Seq::new(numbers.len(), |i: int| paths::join(work_dir, page_name(numbers[i] as nat)))
}

/// Whether no number stands before a smaller one.
pub open spec fn in_page_order(ns: Seq<usize>) -> bool {
    forall|i: int, j: int| 0 <= i < j < ns.len() ==> ns[i] <= ns[j]
}

/// Whether `ps` are the places for the pictures of the pages `sorted`, which are
/// `numbers` from the smallest to the largest.
pub open spec fn are_images_of(
    ps: Seq<Seq<char>>,
    work_dir: Seq<char>,
    numbers: Seq<usize>,
    sorted: Seq<usize>,
) -> bool {
    &&& in_page_order(sorted)
    &&& sorted.to_multiset() == numbers.to_multiset()
    &&& ps == page_places(work_dir, sorted)
}

/// Whether `ps` are the places for the pictures of pages, ordered by page number.
pub open spec fn are_images(ps: Seq<Seq<char>>, work_dir: Seq<char>, numbers: Seq<usize>) -> bool {
    exists|sorted: Seq<usize>| are_images_of(ps, work_dir, numbers, sorted)
}

/// The numbers of pages, from the smallest to the largest.
pub fn pages_in_order(numbers: &Vec<usize>) -> (r: Vec<usize>)
    ensures
        in_page_order(r@),
        r@.to_multiset() == numbers@.to_multiset(),
{
    let mut r: Vec<usize> = Vec::new();
    let mut i: usize = 0;
    assert(r@ =~= numbers@.take(0));
    while i < numbers.len()
        invariant
            i <= numbers@.len(),
            in_page_order(r@),
            r@.to_multiset() == numbers@.take(i as int).to_multiset(),
        decreases numbers@.len() - i,
    {
        let n: usize = numbers[i];
        let mut k: usize = r.len();
        while k > 0 && n < r[k - 1]
            invariant
                k <= r@.len(),
                k < r@.len() ==> n < r@[k as int],
            decreases k,
        {
            k = k - 1;
        }
        let ghost before = r@;
        r.insert(k, n);
        proof {
            vstd::seq_lib::to_multiset_insert(before, k as int, n);
            assert(numbers@.take(i + 1) =~= numbers@.take(i as int).push(n));
            vstd::seq_lib::to_multiset_build(numbers@.take(i as int), n);
        }
        i = i + 1;
    }
    assert(numbers@.take(i as int) =~= numbers@);
    r
}

/// The places for the pictures of pages in a directory, ordered by page number.
pub fn page_images(work_dir: &str, numbers: &Vec<usize>) -> (r: Vec<String>)
    ensures
        are_images(text::views(r@), work_dir@, numbers@),
{
    let sorted = pages_in_order(numbers);
    let mut r: Vec<String> = Vec::new();
    let mut i: usize = 0;
    while i < sorted.len()
        invariant
            i <= sorted@.len(),
            text::views(r@) =~= page_places(work_dir@, sorted@.take(i as int)),
        decreases sorted@.len() - i,
    {
        let p = join_path(work_dir, page_image_name(sorted[i]).as_str());
        let ghost before = text::views(r@);
        r.push(p);
        assert(text::views(r@) =~= before.push(p@));
        i = i + 1;
    }
    assert(sorted@.take(i as int) =~= sorted@);
    assert(are_images_of(text::views(r@), work_dir@, numbers@, sorted@));
    r
}

// ---------------------------------------------------------------- failures

/// Words by which a message tells that the document itself is at fault.
pub open spec fn permanent_words() -> Seq<Seq<char>> {
    seq![
        "encrypt"@,
        "password"@,
        "protected"@,
        "decrypt"@,
        "corrupt"@,
        "malformed"@,
        "premature"@,
        "truncated"@,
        "unexpected eof"@,
        "no /root"@,
        "no startxref"@,
        "no xref"@,
        "invalid pdf"@,
        "failed to load pdf"@,
        "invalid excel"@,
        "not a valid zip"@,
        "invalid docx"@,
    ]
}

/// Whether one of `words`, from index `from` on, stands in `s`.
pub open spec fn holds_word(s: Seq<char>, words: Seq<Seq<char>>, from: int) -> bool
    decreases words.len() - from,
{
    if from < 0 || from >= words.len() {
        false
    } else {
        text::contains(s, words[from]) || holds_word(s, words, from + 1)
    }
}

/// What a message of the converter means, given the message in lower case.
pub open spec fn failure_of(
    path: Seq<char>,
    message: Seq<char>,
    lower: Seq<char>,
) -> (bool, Seq<char>) {
    if holds_word(lower, permanent_words(), 0) {
        (true, message)
    } else if text::contains(lower, "unsupported file format"@) || text::contains(
        lower,
        "format not supported"@,
    ) {
        (
            true,
            message
                + " — hint: rebuild kb with the relevant transmutation feature enabled (image-ocr, office, pdf-to-image)"@,
        )
    } else {
        (false, message)
    }
}

/// Whether an error is the given classification.
pub open spec fn is_failure(
    e: ExtractionError,
    path: Seq<char>,
    c: (bool, Seq<char>),
) -> bool {
    match e {
        ExtractionError::Permanent { path: p, detail } => c.0 && p@ == path && detail@ == c.1,
        ExtractionError::Transient { path: p, detail } => !c.0 && p@ == path && detail@ == c.1,
        _ => false,
    }
}

/// What a message of the converter means, given the message in lower case.
pub fn classify_message(path: &str, message: &str, lower: &str) -> (r: ExtractionError)
    ensures
        is_failure(r, path@, failure_of(path@, message@, lower@)),
{
    let words: Vec<&'static str> = vec![
        "encrypt",
        "password",
        "protected",
        "decrypt",
        "corrupt",
        "malformed",
        "premature",
        "truncated",
        "unexpected eof",
        "no /root",
        "no startxref",
        "no xref",
        "invalid pdf",
        "failed to load pdf",
        "invalid excel",
        "not a valid zip",
        "invalid docx",
    ];
    assert(text::literals(words@) =~= permanent_words());
    let mut i: usize = 0;
    while i < words.len()
        invariant
            i <= words@.len(),
            text::literals(words@) == permanent_words(),
            holds_word(lower@, permanent_words(), 0) == holds_word(
                lower@,
                permanent_words(),
                i as int,
            ),
        decreases words@.len() - i,
    {
        assert(permanent_words()[i as int] == text::literals(words@)[i as int]);
        if has_text(lower, words[i]) {
            return ExtractionError::Permanent {
                path: String::from_str(path),
                detail: String::from_str(message),
            };
        }
        i = i + 1;
    }
    assert(i == permanent_words().len());
    if has_text(lower, "unsupported file format") || has_text(lower, "format not supported") {
        let mut detail = String::from_str(message);
        detail.append(
            " — hint: rebuild kb with the relevant transmutation feature enabled (image-ocr, office, pdf-to-image)",
        );
        return ExtractionError::Permanent { path: String::from_str(path), detail };
    }
    ExtractionError::Transient { path: String::from_str(path), detail: String::from_str(message) }
}

/// What a message of the converter means.
pub fn classify_transmutation_error(path: &str, message: &str) -> (r: ExtractionError)
    ensures
        is_failure(r, path@, failure_of(path@, message@, text::unicode_lower(message@))),
{
    let lower = lowercase(message);
    classify_message(path, message, lower.as_str())
}

// ---------------------------------------------------------------- one extraction

/// What the source is found to be: its canonical path, or why it cannot be read.
pub fn check_source(input: &str, found: Result<Located, String>) -> (r: Result<
    String,
    ExtractionError,
>)
    ensures
        match found {
            Err(e) => r matches Err(ExtractionError::SourceUnreadable { path, detail }) && path@
                == input@ && detail@ == e@,
            Ok(l) => if l.is_file {
                r matches Ok(p) && p@ == l.canonical@
            } else {
                r matches Err(ExtractionError::SourceUnreadable { path, detail }) && path@
                    == l.canonical@ && detail@ == "not a regular file"@
            },
        },
{
    match found {
        Err(e) => Err(
            ExtractionError::SourceUnreadable { path: String::from_str(input), detail: e },
        ),
        Ok(l) => {
            if l.is_file {
                Ok(l.canonical)
            } else {
                Err(
                    ExtractionError::SourceUnreadable {
                        path: l.canonical,
                        detail: String::from_str("not a regular file"),
                    },
                )
            }
        },
    }
}

/// What the converter is told for a mode; an error where the mode is not built in.
pub fn conversion_request(
    config: &ExtractorConfig,
    mode: ExtractionMode,
    ffi_available: bool,
) -> (r: Result<ConversionRequest, ExtractionError>)
    ensures
        mode == ExtractionMode::Ffi && !ffi_available ==> r == Err::<
            ConversionRequest,
            ExtractionError,
        >(ExtractionError::FfiNotCompiled),
        !(mode == ExtractionMode::Ffi && !ffi_available) ==> {
            &&& r matches Ok(q)
            &&& q.optimize_for_llm
            &&& !q.split_pages
            &&& q.ocr_language@ == config.ocr_language@
            &&& q.use_precision_mode == (mode == ExtractionMode::Precision || mode
                == ExtractionMode::Ffi)
            &&& q.use_ffi == (mode == ExtractionMode::Ffi)
        },
{
    if mode == ExtractionMode::Ffi && !ffi_available {
        return Err(ExtractionError::FfiNotCompiled);
    }
    Ok(
        ConversionRequest {
            optimize_for_llm: true,
            split_pages: false,
            ocr_language: config.ocr_language.clone(),
            use_precision_mode: mode == ExtractionMode::Precision || mode == ExtractionMode::Ffi,
            use_ffi: mode == ExtractionMode::Ffi,
        },
    )
}

/// The text of the first `n` pages: each page on a line of its own; a page that is
/// no text is left out.
pub open spec fn pages_text(pages: Seq<Option<Seq<char>>>, n: nat) -> Seq<char>
    decreases n,
{
    if n == 0 {
        Seq::empty()
    } else {
        let before = pages_text(pages, (n - 1) as nat);
        let broken = if n > 1 && !(before.len() > 0 && before.last() == '\n') {
            before.push('\n')
        } else {
            before
        };
        match pages[n - 1] {
            Some(p) => broken + p,
            None => broken,
        }
    }
}

/// The views of pages.
pub open spec fn page_views(pages: Seq<Option<String>>) -> Seq<Option<Seq<char>>> {
    Seq::new(pages.len(), |i: int| crate::json::text_view(pages[i]))
}

/// The text of all pages.
pub fn joined_pages(pages: &Vec<Option<String>>) -> (r: String)
    ensures
        r@ == pages_text(page_views(pages@), pages@.len()),
{
    let ghost ps = page_views(pages@);
    let mut r = String::new();
    let mut ends_line = false;
    let mut i: usize = 0;
    while i < pages.len()
        invariant
            i <= pages@.len(),
            ps == page_views(pages@),
            r@ == pages_text(ps, i as nat),
            ends_line == (r@.len() > 0 && r@.last() == '\n'),
        decreases pages@.len() - i,
    {
        if i > 0 && !ends_line {
            r.push('\n');
            ends_line = true;
        }
        assert(ps[i as int] == crate::json::text_view(pages@[i as int]));
        if let Some(p) = &pages[i] {
            let n: usize = p.as_str().unicode_len();
            let ghost before = r@;
            if n > 0 {
                ends_line = p.as_str().get_char(n - 1) == '\n';
                r.append(p.as_str());
                assert(r@.last() == p@.last());
            } else {
                assert(before + p@ =~= before);
            }
        }
        i = i + 1;
    }
    r
}

/// What is known of an extracted document.
#[derive(Debug, Clone)]
pub struct ExtractionMetadata {
    pub source: String,
    pub format: String,
    /// How many pages, slides or sheets there are; none of a single asset.
    pub page_count: usize,
    pub title: Option<String>,
    pub author: Option<String>,
    pub mode: ExtractionMode,
    /// How long it took, in milliseconds.
    pub elapsed_ms: u64,
    /// The length of the markdown in bytes.
    pub markdown_bytes: u64,
}

/// An extracted document.
#[derive(Debug, Clone)]
pub struct Extraction {
    pub markdown: String,
    /// Pictures of the pages, ordered by page number.
    pub images: Vec<String>,
    pub metadata: ExtractionMetadata,
}

/// What the converter gave.
#[derive(Debug, Clone)]
pub struct Converted {
    /// The pages; one that is no text is absent.
    pub pages: Vec<Option<String>>,
    /// How many pages the document says that it has.
    pub page_count: usize,
    pub title: Option<String>,
    pub author: Option<String>,
    pub elapsed_ms: u64,
}

/// Whether pictures of the pages of a document are made.
pub open spec fn draws_pages(config: ExtractorConfig, source: Seq<char>) -> bool {
    config.render_page_images && (format_of(source) == "pdf"@ || format_of(source) == "docx"@
        || format_of(source) == "pptx"@)
}

/// Whether pictures of the pages of a document are to be made.
pub fn wants_images(config: &ExtractorConfig, source: &str) -> (b: bool)
    ensures
        b == draws_pages(*config, source@),
{
    config.render_page_images && has_pages(input_format_tag(source).as_str())
}

/// Puts the document together, given the numbers of the pages whose pictures were made
/// in a directory. One that holds nothing but white space is an error.
pub fn extraction_of(
    config: &ExtractorConfig,
    source: &str,
    work_dir: &str,
    mode: ExtractionMode,
    given: Converted,
    drawn: &Vec<usize>,
) -> (r: Result<Extraction, ExtractionError>)
    ensures
        ({
            let markdown = pages_text(page_views(given.pages@), given.pages@.len());
            if text::trim(markdown).len() == 0 {
                r matches Err(ExtractionError::EmptyOutput { path, format }) && path@ == source@
                    && format@ == format_of(source@)
            } else {
                &&& r matches Ok(x)
                &&& x.markdown@ == markdown
                &&& if draws_pages(*config, source@) {
                    are_images(text::views(x.images@), work_dir@, drawn@)
                } else {
                    x.images@.len() == 0
                }
                &&& x.metadata.source@ == source@
                &&& x.metadata.format@ == format_of(source@)
                &&& x.metadata.page_count == pages_counted(
                    format_of(source@),
                    given.page_count as nat,
                    given.pages@.len(),
                )
                &&& x.metadata.title == given.title
                &&& x.metadata.author == given.author
                &&& x.metadata.mode == mode
                &&& x.metadata.elapsed_ms == given.elapsed_ms
                &&& x.metadata.markdown_bytes == vstd::utf8::encode_utf8(markdown).len() as usize
            }
        }),
{
    let format = input_format_tag(source);
    let markdown = joined_pages(&given.pages);
    if trimmed(markdown.as_str()).is_empty() {
        return Err(ExtractionError::EmptyOutput { path: String::from_str(source), format });
    }
    let images = if wants_images(config, source) {
        page_images(work_dir, drawn)
    } else {
        Vec::new()
    };
    let page_count: usize = if is_single_asset(format.as_str()) {
        0
    } else if given.page_count >= given.pages.len() {
        given.page_count
    } else {
        given.pages.len()
    };
    let markdown_bytes: u64 = markdown.as_str().len() as u64;
    Ok(
        Extraction {
            markdown,
            images,
            metadata: ExtractionMetadata {
                source: String::from_str(source),
                format,
                page_count,
                title: given.title,
                author: given.author,
                mode,
                elapsed_ms: given.elapsed_ms,
                markdown_bytes,
            },
        },
    )
}

// ---------------------------------------------------------------- laws

proof fn lemma_page_name(n: nat)
    ensures
        paths::is_name(page_name(n)),
{
    reveal_strlit("page_");
    reveal_strlit(".png");
    number::lemma_numeral_digits(n);
    let d = number::numeral(n);
    let s = page_name(n);
    let f = display::four_digits(n);
    assert forall|i: int| 0 <= i < f.len() implies '0' <= #[trigger] f[i] <= '9' by {
        if d.len() < 4 {
            let k = 4 - d.len();
            if i < k {
                assert(f[i] == text::repeat('0', k)[i]);
            } else {
                assert(f[i] == d[i - k]);
                assert(number::is_digit(d[i - k]));
            }
        } else {
            assert(number::is_digit(d[i]));
        }
    }
    if s.contains('/') {
        let i = choose|i: int| 0 <= i < s.len() && s[i] == '/';
        if 5 <= i < 5 + f.len() {
            assert(s[i] == f[i - 5]);
        }
    }
}

/// The picture of a page lies in the directory that was given for it.
pub proof fn law_images_are_in_the_directory(
    ps: Seq<Seq<char>>,
    work_dir: Seq<char>,
    numbers: Seq<usize>,
    i: int,
)
    requires
        are_images(ps, work_dir, numbers),
        0 <= i < ps.len(),
    ensures
        paths::inside(ps[i], work_dir),
{
    let sorted = choose|sorted: Seq<usize>| are_images_of(ps, work_dir, numbers, sorted);
    let name = page_name(sorted[i] as nat);
    lemma_page_name(sorted[i] as nat);
    paths::lemma_join_name(work_dir, name);
    assert(paths::components(ps[i]).len() == paths::components(work_dir).len() + 1);
}

/// A file is never read in a mode that is not built in.
pub proof fn law_granted_mode_is_built_in(asked: ExtractionMode, ffi_available: bool)
    ensures
        granted_mode(asked, ffi_available) == ExtractionMode::Ffi ==> ffi_available,
        asked != ExtractionMode::Ffi ==> granted_mode(asked, ffi_available) == asked,
{
}

} // verus!
