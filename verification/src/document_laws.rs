//! What is made of a document: its markdown, its pictures, and what a failure means.

use vstd::prelude::*;
use vstd::string::*;

use crate::extractor::{
    are_images, asset_formats, configured_mode, draws_pages, failure_of, format_of, holds_word,
    page_name, pages_counted, pages_text, permanent_words, plain_formats, ruled_mode, single_asset,
    ExtractionConfig, ExtractionRule, ExtractorConfig,
};
use crate::number::numeral;
use crate::path_laws::{law_file_name, law_name_parts};
use crate::paths::{components, is_name, join};
use crate::text;
use crate::text::{contains, lower_ascii, occurs_at};

verus! {

// ---------------------------------------------------------------- markdown

proof fn lemma_pages_pushed(pages: Seq<Option<Seq<char>>>, x: Option<Seq<char>>, n: nat)
    requires
        n <= pages.len(),
    ensures
        pages_text(pages.push(x), n) == pages_text(pages, n),
    decreases n,
{
    if n > 0 {
        lemma_pages_pushed(pages, x, (n - 1) as nat);
        assert(pages.push(x)[n - 1] == pages[n - 1]);
    }
}

/// A page that follows others starts on a new line and is taken whole; the first page is
/// taken as it is. A page that is no text adds no more than the line break.
pub proof fn law_page_added(pages: Seq<Option<Seq<char>>>, p: Seq<char>)
    ensures
        ({
            let t = pages_text(pages, pages.len());
            let u = pages_text(pages.push(Some(p)), pages.len() + 1);
            let v = pages_text(pages.push(None), pages.len() + 1);
            &&& pages.len() == 0 ==> u == p && v.len() == 0
            &&& pages.len() > 0 && t.len() > 0 && t.last() == '\n' ==> u == t + p && v == t
            &&& pages.len() > 0 && !(t.len() > 0 && t.last() == '\n') ==> u == t + seq!['\n'] + p
                && v == t + seq!['\n']
        }),
{
    lemma_pages_pushed(pages, Some(p), pages.len());
    lemma_pages_pushed(pages, None, pages.len());
    let t = pages_text(pages, pages.len());
    assert(pages.push(Some(p))[pages.len() as int] == Some(p));
    assert(pages.push(None::<Seq<char>>)[pages.len() as int] == None::<Seq<char>>);
    assert(t.push('\n') =~= t + seq!['\n']);
    if pages.len() == 0 {
        assert(t + p =~= p);
    }
}

/// The markdown of a single text is that text.
pub proof fn law_single_page(p: Seq<char>)
    ensures
        pages_text(seq![Some(p)], 1) == p,
{
    law_page_added(Seq::empty(), p);
    assert(Seq::<Option<Seq<char>>>::empty().push(Some(p)) =~= seq![Some(p)]);
}

/// Every page that is text stands in the markdown as a whole, and behind the pages before
/// it.
pub proof fn law_every_page_is_kept(pages: Seq<Option<Seq<char>>>, n: nat, i: int) -> (at: int)
    requires
        0 <= i < n <= pages.len(),
        pages[i] is Some,
    ensures
        occurs_at(pages_text(pages, n), pages[i]->0, at),
        contains(pages_text(pages, n), pages[i]->0),
        at >= pages_text(pages, i as nat).len(),
        at <= pages_text(pages, i as nat).len() + 1,
        pages_text(pages, i as nat).is_prefix_of(pages_text(pages, n)),
    decreases n,
{
    let before = pages_text(pages, (n - 1) as nat);
    let all = pages_text(pages, n);
    assert(all.len() >= before.len());
    assert(all.subrange(0, before.len() as int) =~= before);
    if i == n - 1 {
        let p = pages[i]->0;
        let k = all.len() - p.len();
        assert(all.subrange(k, k + p.len()) =~= p);
        assert(occurs_at(all, p, k));
        k
    } else {
        let p = pages[i]->0;
        let k = law_every_page_is_kept(pages, (n - 1) as nat, i);
        assert(all.subrange(k, k + p.len()) =~= before.subrange(k, k + p.len()));
        assert(occurs_at(all, p, k));
        let start = pages_text(pages, i as nat);
        assert(start =~= all.subrange(0, start.len() as int));
        k
    }
}

// ---------------------------------------------------------------- pictures

/// There is one picture for each page that was drawn, and of two pictures the one of the
/// earlier page comes first.
pub proof fn law_pictures(ps: Seq<Seq<char>>, work_dir: Seq<char>, numbers: Seq<usize>)
    requires
        are_images(ps, work_dir, numbers),
    ensures
        ps.len() == numbers.len(),
        exists|sorted: Seq<usize>|
            sorted.len() == ps.len() && sorted.to_multiset() == numbers.to_multiset() && (forall|
                i: int,
                j: int,
            |
                0 <= i < j < sorted.len() ==> sorted[i] <= sorted[j]) && forall|i: int|
                0 <= i < ps.len() ==> #[trigger] ps[i] == join(
                    work_dir,
                    page_name(sorted[i] as nat),
                ),
{
    let sorted = choose|sorted: Seq<usize>|
        crate::extractor::are_images_of(ps, work_dir, numbers, sorted);
    assert(crate::extractor::are_images_of(ps, work_dir, numbers, sorted));
    sorted.to_multiset_ensures();
    numbers.to_multiset_ensures();
    assert(ps.len() == sorted.len());
    assert forall|i: int| 0 <= i < ps.len() implies #[trigger] ps[i] == join(
        work_dir,
        page_name(sorted[i] as nat),
    ) by {}
}

/// A picture is named after its page, in at least four digits.
pub proof fn law_page_name(n: nat)
    ensures
        n < 10 ==> page_name(n) == "page_"@ + seq!['0', '0', '0'] + numeral(n) + ".png"@,
        10 <= n < 100 ==> page_name(n) == "page_"@ + seq!['0', '0'] + numeral(n) + ".png"@,
        100 <= n < 1000 ==> page_name(n) == "page_"@ + seq!['0'] + numeral(n) + ".png"@,
        n >= 1000 ==> page_name(n) == "page_"@ + numeral(n) + ".png"@,
{
    crate::display::lemma_numeral_widths(n);
    let d = numeral(n);
    if n >= 1000 {
        lemma_long(n);
    } else {
        let k = 4 - d.len();
        if n < 10 {
            assert(text::repeat('0', k) =~= seq!['0', '0', '0']);
        } else if n < 100 {
            assert(text::repeat('0', k) =~= seq!['0', '0']);
        } else {
            assert(text::repeat('0', k) =~= seq!['0']);
        }
        assert("page_"@ + (text::repeat('0', k) + d) + ".png"@ =~= "page_"@ + text::repeat('0', k) + d
            + ".png"@);
    }
}

proof fn lemma_long(n: nat)
    requires
        n >= 1000,
    ensures
        numeral(n).len() >= 4,
    decreases n,
{
    if n < 10000 {
        crate::display::lemma_numeral_widths(n);
    } else {
        lemma_long(n / 10);
    }
}

// ---------------------------------------------------------------- formats

/// A number by which the names of formats are told apart.
spec fn telling(s: Seq<char>) -> int {
    s.len() + 10 * (s[0] as int) + 10000 * (s[s.len() - 1] as int) + 10000000 * (s[(s.len() / 2) as int] as int)
}

proof fn lemma_formats()
    ensures
        telling("bmp"@) == 1091120983,
        telling("csv"@) == 1151180993,
        telling("docx"@) == 991201004,
        telling("gif"@) == 1051021033,
        telling("htm"@) == 1161091043,
        telling("html"@) == 1091081044,
        telling("jpeg"@) == 1011031064,
        telling("jpg"@) == 1121031063,
        telling("md"@) == 1001001092,
        telling("pdf"@) == 1001021123,
        telling("png"@) == 1101031123,
        telling("ppt"@) == 1121161123,
        telling("pptx"@) == 1161201124,
        telling("tif"@) == 1051021163,
        telling("tiff"@) == 1021021164,
        telling("txt"@) == 1201161163,
        telling("unknown"@) == 1101101177,
        telling("webp"@) == 981121194,
        telling("xlsx"@) == 1151201204,
{
    reveal_strlit("bmp");
    reveal_strlit("csv");
    reveal_strlit("docx");
    reveal_strlit("gif");
    reveal_strlit("htm");
    reveal_strlit("html");
    reveal_strlit("jpeg");
    reveal_strlit("jpg");
    reveal_strlit("md");
    reveal_strlit("pdf");
    reveal_strlit("png");
    reveal_strlit("ppt");
    reveal_strlit("pptx");
    reveal_strlit("tif");
    reveal_strlit("tiff");
    reveal_strlit("txt");
    reveal_strlit("unknown");
    reveal_strlit("webp");
    reveal_strlit("xlsx");
}

/// The format of a file is told by its extension, in any case of letters: most extensions
/// are their own tag, a few are another spelling of one.
pub proof fn law_format(dir: Seq<char>, stem: Seq<char>, ext: Seq<char>)
    requires
        stem.len() > 0,
        !ext.contains('.'),
        is_name(stem + seq!['.'] + ext),
        stem + seq!['.'] + ext != seq!['.', '.'],
    ensures
        ({
            let f = format_of(join(dir, stem + seq!['.'] + ext));
            let e = lower_ascii(ext);
            let own = e == "pdf"@
                || e == "docx"@
                || e == "xlsx"@
                || e == "pptx"@
                || e == "ppt"@
                || e == "png"@
                || e == "jpg"@
                || e == "gif"@
                || e == "webp"@
                || e == "bmp"@
                || e == "tiff"@
                || e == "txt"@
                || e == "md"@
                || e == "html"@
                || e == "csv"@;
            &&& own ==> f == e
            &&& e == "jpeg"@ ==> f == "jpg"@
            &&& e == "tif"@ ==> f == "tiff"@
            &&& e == "htm"@ ==> f == "html"@
            &&& !own && e != "jpeg"@ && e != "tif"@ && e != "htm"@ ==> f == "unknown"@
        }),
{
    law_name_parts(stem, ext);
    law_file_name(dir, stem + seq!['.'] + ext);
    lemma_formats();
    assert(plain_formats()[0] == "pdf"@);
    assert(plain_formats()[1] == "docx"@);
    assert(plain_formats()[2] == "xlsx"@);
    assert(plain_formats()[3] == "pptx"@);
    assert(plain_formats()[4] == "ppt"@);
    assert(plain_formats()[5] == "png"@);
    assert(plain_formats()[6] == "jpg"@);
    assert(plain_formats()[7] == "gif"@);
    assert(plain_formats()[8] == "webp"@);
    assert(plain_formats()[9] == "bmp"@);
    assert(plain_formats()[10] == "tiff"@);
    assert(plain_formats()[11] == "txt"@);
    assert(plain_formats()[12] == "md"@);
    assert(plain_formats()[13] == "html"@);
    assert(plain_formats()[14] == "csv"@);
}

/// Plain text and pictures are single assets, and have no pages; of any other document
/// the pages are as many as it says, but at least as many as came.
pub proof fn law_pages(format: Seq<char>, said: nat, came: nat)
    ensures
        single_asset(format) <==> (format == "txt"@
            || format == "md"@
            || format == "png"@
            || format == "jpg"@
            || format == "gif"@
            || format == "webp"@
            || format == "bmp"@
            || format == "tiff"@),
        single_asset(format) ==> pages_counted(format, said, came) == 0,
        !single_asset(format) ==> pages_counted(format, said, came) >= said && pages_counted(
            format,
            said,
            came,
        ) >= came,
        !single_asset(format) ==> pages_counted(format, said, came) == said || pages_counted(
            format,
            said,
            came,
        ) == came,
{
    assert(asset_formats()[0] == "txt"@);
    assert(asset_formats()[1] == "md"@);
    assert(asset_formats()[2] == "png"@);
    assert(asset_formats()[3] == "jpg"@);
    assert(asset_formats()[4] == "gif"@);
    assert(asset_formats()[5] == "webp"@);
    assert(asset_formats()[6] == "bmp"@);
    assert(asset_formats()[7] == "tiff"@);
}

/// Pictures of pages are made where they are asked for, of documents with pages.
pub proof fn law_drawn(config: ExtractorConfig, source: Seq<char>)
    ensures
        draws_pages(config, source) ==> config.render_page_images,
        draws_pages(config, source) ==> format_of(source) == "pdf"@ || format_of(source) == "docx"@
            || format_of(source) == "pptx"@,
        config.render_page_images && format_of(source) == "pdf"@ ==> draws_pages(config, source),
        config.render_page_images && format_of(source) == "docx"@ ==> draws_pages(config, source),
        config.render_page_images && format_of(source) == "pptx"@ ==> draws_pages(config, source),
{
}

// ---------------------------------------------------------------- modes

/// A file is read in the mode of the first rule whose directory holds it, and in the mode
/// of the configuration where no rule does.
pub proof fn law_mode_of_rule(cfg: ExtractionConfig, file: Seq<char>, sources: Seq<char>)
    ensures
        (forall|j: int|
            0 <= j < cfg.rules@.len() ==> !components(
                join(sources, (#[trigger] cfg.rules@[j]).path@),
            ).is_prefix_of(components(file))) ==> configured_mode(cfg, file, sources)
            == cfg.default_mode,
        forall|i: int|
            0 <= i < cfg.rules@.len() && components(
                join(sources, (#[trigger] cfg.rules@[i]).path@),
            ).is_prefix_of(components(file)) && (forall|j: int|
                0 <= j < i ==> !components(
                    join(sources, (#[trigger] cfg.rules@[j]).path@),
                ).is_prefix_of(components(file))) ==> configured_mode(cfg, file, sources)
                == cfg.rules@[i].mode,
{
    let rs = cfg.rules@;
    if forall|j: int|
        0 <= j < rs.len() ==> !components(join(sources, (#[trigger] rs[j]).path@)).is_prefix_of(
            components(file),
        ) {
        lemma_rules(rs, file, sources, 0, rs.len() as int);
    }
    assert forall|i: int|
        0 <= i < rs.len() && components(join(sources, (#[trigger] rs[i]).path@)).is_prefix_of(
            components(file),
        ) && (forall|j: int|
            0 <= j < i ==> !components(join(sources, (#[trigger] rs[j]).path@)).is_prefix_of(
                components(file),
            )) implies configured_mode(cfg, file, sources) == rs[i].mode by {
        lemma_rules(rs, file, sources, 0, i);
    }
}

proof fn lemma_rules(
    rs: Seq<ExtractionRule>,
    file: Seq<char>,
    sources: Seq<char>,
    from: int,
    to: int,
)
    requires
        0 <= from <= to <= rs.len(),
        forall|j: int|
            from <= j < to ==> !components(join(sources, (#[trigger] rs[j]).path@)).is_prefix_of(
                components(file),
            ),
    ensures
        ruled_mode(rs, file, sources, from) == ruled_mode(rs, file, sources, to),
    decreases to - from,
{
    if from < to {
        lemma_rules(rs, file, sources, from + 1, to);
        assert(!components(join(sources, rs[from].path@)).is_prefix_of(components(file)));
    }
}

// ---------------------------------------------------------------- failures

proof fn lemma_word(s: Seq<char>, words: Seq<Seq<char>>, from: int, i: int)
    requires
        0 <= from <= i < words.len(),
        contains(s, words[i]),
    ensures
        holds_word(s, words, from),
    decreases i - from,
{
    if from < i {
        lemma_word(s, words, from + 1, i);
    }
}

proof fn lemma_no_word(s: Seq<char>, words: Seq<Seq<char>>, from: int)
    requires
        0 <= from,
        forall|i: int| 0 <= i < words.len() ==> !contains(s, #[trigger] words[i]),
    ensures
        !holds_word(s, words, from),
    decreases words.len() - from,
{
    if from < words.len() {
        assert(!contains(s, words[from]));
        lemma_no_word(s, words, from + 1);
    }
}

/// A failure is for good where the message speaks of a document that is locked or broken,
/// or of a format that is not built in; any other failure may pass. The message is kept,
/// with a hint behind it where a format is missing.
pub proof fn law_failure(path: Seq<char>, message: Seq<char>, lower: Seq<char>)
    ensures
        ({
            let broken = contains(lower, "encrypt"@)
                || contains(lower, "password"@)
                || contains(lower, "protected"@)
                || contains(lower, "decrypt"@)
                || contains(lower, "corrupt"@)
                || contains(lower, "malformed"@)
                || contains(lower, "premature"@)
                || contains(lower, "truncated"@)
                || contains(lower, "unexpected eof"@)
                || contains(lower, "no /root"@)
                || contains(lower, "no startxref"@)
                || contains(lower, "no xref"@)
                || contains(lower, "invalid pdf"@)
                || contains(lower, "failed to load pdf"@)
                || contains(lower, "invalid excel"@)
                || contains(lower, "not a valid zip"@)
                || contains(lower, "invalid docx"@);
            let missing = contains(lower, "unsupported file format"@) || contains(
                lower,
                "format not supported"@,
            );
            let f = failure_of(path, message, lower);
            &&& f.0 <==> broken || missing
            &&& !missing || broken ==> f.1 == message
            &&& missing && !broken ==> message.is_prefix_of(f.1) && f.1.len() > message.len()
        }),
{
    let w = permanent_words();
    assert(w[0] == "encrypt"@);
    assert(w[1] == "password"@);
    assert(w[2] == "protected"@);
    assert(w[3] == "decrypt"@);
    assert(w[4] == "corrupt"@);
    assert(w[5] == "malformed"@);
    assert(w[6] == "premature"@);
    assert(w[7] == "truncated"@);
    assert(w[8] == "unexpected eof"@);
    assert(w[9] == "no /root"@);
    assert(w[10] == "no startxref"@);
    assert(w[11] == "no xref"@);
    assert(w[12] == "invalid pdf"@);
    assert(w[13] == "failed to load pdf"@);
    assert(w[14] == "invalid excel"@);
    assert(w[15] == "not a valid zip"@);
    assert(w[16] == "invalid docx"@);
    if contains(lower, "encrypt"@)
                || contains(lower, "password"@)
                || contains(lower, "protected"@)
                || contains(lower, "decrypt"@)
                || contains(lower, "corrupt"@)
                || contains(lower, "malformed"@)
                || contains(lower, "premature"@)
                || contains(lower, "truncated"@)
                || contains(lower, "unexpected eof"@)
                || contains(lower, "no /root"@)
                || contains(lower, "no startxref"@)
                || contains(lower, "no xref"@)
                || contains(lower, "invalid pdf"@)
                || contains(lower, "failed to load pdf"@)
                || contains(lower, "invalid excel"@)
                || contains(lower, "not a valid zip"@)
                || contains(lower, "invalid docx"@) {
        if contains(lower, "encrypt"@) {
            lemma_word(lower, w, 0, 0);
        }
        if contains(lower, "password"@) {
            lemma_word(lower, w, 0, 1);
        }
        if contains(lower, "protected"@) {
            lemma_word(lower, w, 0, 2);
        }
        if contains(lower, "decrypt"@) {
            lemma_word(lower, w, 0, 3);
        }
        if contains(lower, "corrupt"@) {
            lemma_word(lower, w, 0, 4);
        }
        if contains(lower, "malformed"@) {
            lemma_word(lower, w, 0, 5);
        }
        if contains(lower, "premature"@) {
            lemma_word(lower, w, 0, 6);
        }
        if contains(lower, "truncated"@) {
            lemma_word(lower, w, 0, 7);
        }
        if contains(lower, "unexpected eof"@) {
            lemma_word(lower, w, 0, 8);
        }
        if contains(lower, "no /root"@) {
            lemma_word(lower, w, 0, 9);
        }
        if contains(lower, "no startxref"@) {
            lemma_word(lower, w, 0, 10);
        }
        if contains(lower, "no xref"@) {
            lemma_word(lower, w, 0, 11);
        }
        if contains(lower, "invalid pdf"@) {
            lemma_word(lower, w, 0, 12);
        }
        if contains(lower, "failed to load pdf"@) {
            lemma_word(lower, w, 0, 13);
        }
        if contains(lower, "invalid excel"@) {
            lemma_word(lower, w, 0, 14);
        }
        if contains(lower, "not a valid zip"@) {
            lemma_word(lower, w, 0, 15);
        }
        if contains(lower, "invalid docx"@) {
            lemma_word(lower, w, 0, 16);
        }
    } else {
        assert forall|i: int| 0 <= i < w.len() implies !contains(lower, #[trigger] w[i]) by {
            assert(i == 0 || i == 1 || i == 2 || i == 3 || i == 4 || i == 5 || i == 6 || i == 7 || i == 8 || i == 9 || i == 10 || i == 11 || i == 12 || i == 13 || i == 14 || i == 15 || i == 16);
        }
        lemma_no_word(lower, w, 0);
    }
    let hint =
        " — hint: rebuild kb with the relevant transmutation feature enabled (image-ocr, office, pdf-to-image)"@;
    reveal_strlit(
        " — hint: rebuild kb with the relevant transmutation feature enabled (image-ocr, office, pdf-to-image)",
    );
    assert((message + hint).subrange(0, message.len() as int) =~= message);
    assert(hint.len() > 0);
}

} // verus!
