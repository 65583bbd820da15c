//! The report on how much the sources and the outputs take.

use vstd::prelude::*;
use vstd::string::*;

use crate::display;
use crate::display::fmt_bytes;
use crate::number;
use crate::number::integer_text;
use crate::text;
use crate::text::{add_fixed, add_line, padded_left, repeated, views};

verus! {

/// The files of one extension, or the outputs of one kind.
#[derive(Debug, Clone)]
pub struct StorageRow {
    pub name: String,
    pub count: i64,
    pub bytes: i64,
}

/// How much the sources and the outputs take.
#[derive(Debug, Clone)]
pub struct StorageStats {
    pub by_ext: Vec<StorageRow>,
    pub by_kind: Vec<StorageRow>,
    pub total_source_count: i64,
    pub total_output_count: i64,
    pub total_bytes: i64,
}

/// The larger of two numbers.
pub open spec fn larger(a: int, b: int) -> int {
    if a < b {
        b
    } else {
        a
    }
}

/// What the name and the count of a row take, with a colon and a blank between.
pub open spec fn lead(r: StorageRow) -> int {
    2int + r.name@.len() + number::decimal(r.count as int).len()
}

/// What the widest lead takes.
pub open spec fn widest_lead(rows: Seq<StorageRow>) -> int
    decreases rows.len(),
{
    if rows.len() == 0 {
        0
    } else {
        larger(widest_lead(rows.drop_last()), lead(rows.last()))
    }
}

/// What the widest size takes.
pub open spec fn widest_size(rows: Seq<StorageRow>) -> int
    decreases rows.len(),
{
    if rows.len() == 0 {
        0
    } else {
        larger(
            widest_size(rows.drop_last()),
            display::size_text(rows.last().bytes as int).len() as int,
        )
    }
}

/// The ending of a noun after a count.
pub open spec fn plural(n: int) -> Seq<char> {
    if n == 1 {
        ""@
    } else {
        "s"@
    }
}

fn plural_of(n: i64) -> (r: &'static str)
    ensures
        r@ == plural(n as int),
{
    if n == 1 {
        ""
    } else {
        "s"
    }
}

/// The line of a row: names on the left, counts and sizes on the right of their
/// columns.
pub open spec fn storage_row(r: StorageRow, lead_width: int, size_width: int) -> Seq<char> {
    "  "@ + r.name@ + ":"@ + text::repeat(' ', lead_width - lead(r) + 1) + number::decimal(
        r.count as int,
    ) + " file"@ + plural(r.count as int) + ", "@ + text::pad_left(
        display::size_text(r.bytes as int),
        size_width,
    )
}

/// The lines of a section: its rows, or what is said where there are none.
pub open spec fn section_rows(
    rows: Seq<StorageRow>,
    none: Seq<char>,
    lead_width: int,
    size_width: int,
) -> Seq<Seq<char>> {
    if rows.len() == 0 {
        seq![none]
    } else {
        Seq::new(rows.len(), |i: int| storage_row(rows[i], lead_width, size_width))
    }
}

/// The last line.
pub open spec fn total_line(s: StorageStats) -> Seq<char> {
    "Total: "@ + number::decimal(s.total_source_count as int) + " source"@ + plural(
        s.total_source_count as int,
    ) + ", "@ + number::decimal(s.total_output_count as int) + " output"@ + plural(
        s.total_output_count as int,
    ) + ", "@ + display::size_text(s.total_bytes as int) + " tracked"@
}

/// The report. The columns are those of both sections together.
pub open spec fn storage_lines(s: StorageStats) -> Seq<Seq<char>> {
    let l = larger(widest_lead(s.by_ext@), widest_lead(s.by_kind@));
    let w = larger(widest_size(s.by_ext@), widest_size(s.by_kind@));
    seq!["Sources:"@] + section_rows(s.by_ext@, "  (no source files tracked)"@, l, w) + seq![
        ""@,
        "Outputs:"@,
    ] + section_rows(s.by_kind@, "  (no output files tracked)"@, l, w) + seq![""@, total_line(s)]
}

fn decimal_width(n: i64) -> (r: usize)
    ensures
        r == number::decimal(n as int).len(),
{
    integer_text(n).as_str().unicode_len()
}

/// Whether the columns of a report can be counted.
pub open spec fn columns_fit(rows: Seq<StorageRow>) -> bool {
    forall|i: int| 0 <= i < rows.len() ==> lead(#[trigger] rows[i]) < usize::MAX
}

fn lead_of(rows: &Vec<StorageRow>) -> (r: usize)
    requires
        columns_fit(rows@),
    ensures
        r == widest_lead(rows@),
        r < usize::MAX,
        forall|i: int| 0 <= i < rows@.len() ==> lead(#[trigger] rows@[i]) <= r,
{
    let mut best: usize = 0;
    let mut i: usize = 0;
    assert(rows@.take(0) =~= Seq::<StorageRow>::empty());
    while i < rows.len()
        invariant
            i <= rows@.len(),
            columns_fit(rows@),
            best == widest_lead(rows@.take(i as int)),
            best < usize::MAX,
            forall|j: int| 0 <= j < i ==> lead(#[trigger] rows@[j]) <= best,
        decreases rows@.len() - i,
    {
        let ghost next = rows@.take(i + 1);
        assert(next.drop_last() =~= rows@.take(i as int));
        assert(next.last() == rows@[i as int]);
        assert(lead(rows@[i as int]) < usize::MAX);
        let n: usize = rows[i].name.as_str().unicode_len() + 2 + decimal_width(rows[i].count);
        if best < n {
            best = n;
        }
        i = i + 1;
    }
    assert(rows@.take(i as int) =~= rows@);
    best
}

fn size_of_column(rows: &Vec<StorageRow>) -> (r: usize)
    ensures
        r == widest_size(rows@),
{
    let mut best: usize = 0;
    let mut i: usize = 0;
    assert(rows@.take(0) =~= Seq::<StorageRow>::empty());
    while i < rows.len()
        invariant
            i <= rows@.len(),
            best == widest_size(rows@.take(i as int)),
        decreases rows@.len() - i,
    {
        let ghost next = rows@.take(i + 1);
        assert(next.drop_last() =~= rows@.take(i as int));
        assert(next.last() == rows@[i as int]);
        let n: usize = fmt_bytes(rows[i].bytes).as_str().unicode_len();
        if best < n {
            best = n;
        }
        i = i + 1;
    }
    assert(rows@.take(i as int) =~= rows@);
    best
}

fn row_line(r: &StorageRow, lead_width: usize, size_width: usize) -> (s: String)
    requires
        lead(*r) <= lead_width < usize::MAX,
    ensures
        s@ == storage_row(*r, lead_width as int, size_width as int),
{
    let count = integer_text(r.count);
    let used: usize = r.name.as_str().unicode_len() + 2 + count.as_str().unicode_len();
    let mut s = String::from_str("  ");
    s.append(r.name.as_str());
    s.append(":");
    s.append(repeated(' ', lead_width - used + 1).as_str());
    s.append(count.as_str());
    s.append(" file");
    s.append(plural_of(r.count));
    s.append(", ");
    s.append(padded_left(fmt_bytes(r.bytes).as_str(), size_width).as_str());
    s
}

fn add_section(
    out: &mut Vec<String>,
    rows: &Vec<StorageRow>,
    none: &str,
    lead_width: usize,
    size_width: usize,
)
    requires
        lead_width < usize::MAX,
        forall|i: int| 0 <= i < rows@.len() ==> lead(#[trigger] rows@[i]) <= lead_width,
    ensures
        views(final(out)@) == views(old(out)@) + section_rows(
            rows@,
            none@,
            lead_width as int,
            size_width as int,
        ),
{
    let ghost before = views(out@);
    if rows.len() == 0 {
        add_fixed(out, none);
        return;
    }
    let mut i: usize = 0;
    let ghost shown = |n: nat|
        Seq::new(n, |j: int| storage_row(rows@[j], lead_width as int, size_width as int));
    assert(views(out@) =~= before + shown(0));
    while i < rows.len()
        invariant
            i <= rows@.len(),
            lead_width < usize::MAX,
            forall|j: int| 0 <= j < rows@.len() ==> lead(#[trigger] rows@[j]) <= lead_width,
            shown == (|n: nat|
                Seq::new(n, |j: int| storage_row(rows@[j], lead_width as int, size_width as int))),
            views(out@) == before + shown(i as nat),
        decreases rows@.len() - i,
    {
        add_line(out, row_line(&rows[i], lead_width, size_width));
        i = i + 1;
        assert(views(out@) =~= before + shown(i as nat));
    }
}

fn total_of(s: &StorageStats) -> (r: String)
    ensures
        r@ == total_line(*s),
{
    let mut t = String::from_str("Total: ");
    t.append(integer_text(s.total_source_count).as_str());
    t.append(" source");
    t.append(plural_of(s.total_source_count));
    t.append(", ");
    t.append(integer_text(s.total_output_count).as_str());
    t.append(" output");
    t.append(plural_of(s.total_output_count));
    t.append(", ");
    t.append(fmt_bytes(s.total_bytes).as_str());
    t.append(" tracked");
    t
}

/// The report on how much the sources and the outputs take.
pub fn storage_report(s: &StorageStats) -> (r: Vec<String>)
    requires
        columns_fit(s.by_ext@),
        columns_fit(s.by_kind@),
    ensures
        views(r@) == storage_lines(*s),
{
    let a: usize = lead_of(&s.by_ext);
    let b: usize = lead_of(&s.by_kind);
    let l: usize = if a < b {
        b
    } else {
        a
    };
    let c: usize = size_of_column(&s.by_ext);
    let d: usize = size_of_column(&s.by_kind);
    let w: usize = if c < d {
        d
    } else {
        c
    };
    let mut out: Vec<String> = Vec::new();
    add_fixed(&mut out, "Sources:");
    assert(views(out@) =~= seq!["Sources:"@]);
    add_section(&mut out, &s.by_ext, "  (no source files tracked)", l, w);
    let ghost head = views(out@);
    add_fixed(&mut out, "");
    add_fixed(&mut out, "Outputs:");
    assert(views(out@) =~= head + seq![""@, "Outputs:"@]);
    add_section(&mut out, &s.by_kind, "  (no output files tracked)", l, w);
    let ghost body = views(out@);
    add_fixed(&mut out, "");
    add_line(&mut out, total_of(s));
    assert(views(out@) =~= body + seq![""@, total_line(*s)]);
    out
}

} // verus!
