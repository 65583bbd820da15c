//! Pruning rows that are finished: which may go, and what is said of them.

use vstd::prelude::*;
use vstd::string::*;

use crate::display;
use crate::display::{fmt_bytes, fmt_ts, truncate_path};
use crate::number;
use crate::number::{integer_text, parse_integer, unsigned_text};
use crate::text;
use crate::text::{add_fixed, add_line, padded_left, padded_right, quote, repeated, strip_back, views};
use crate::types;
use crate::types::{FileRow, Status};

verus! {

/// What `kb prune` is asked for.
#[derive(Debug, Clone)]
pub struct PruneArgs {
    /// Rows last updated before this date are pruned.
    pub before: Option<String>,
    /// Rows with this status are pruned.
    pub status: String,
    /// Whether nothing is deleted.
    pub dry_run: bool,
}

// ---------------------------------------------------------------- status

/// The name of a status as the `{:?}` formatter writes it.
pub open spec fn status_name(s: Status) -> Seq<char> {
    match s {
        Status::Seen => "Seen"@,
        Status::Queued => "Queued"@,
        Status::Processing => "Processing"@,
        Status::Done => "Done"@,
        Status::Failed => "Failed"@,
        Status::Skipped => "Skipped"@,
    }
}

/// Whether rows with a status may be pruned: only those that are finished.
pub open spec fn prunable(s: Status) -> bool {
    s == Status::Done || s == Status::Failed || s == Status::Skipped
}

/// The status that rows are pruned by, or why they are not.
pub open spec fn prune_status_of(word: Seq<char>) -> Result<Status, Seq<char>> {
    match types::status_of(word) {
        Some(s) => if prunable(s) {
            Ok(s)
        } else {
            Err(
                "pruning status "@ + status_name(s)
                    + " is not allowed; use one of: done, failed, skipped"@,
            )
        },
        None => Err(
            "invalid status "@ + text::quoted(word) + " — allowed values: done, failed, skipped"@,
        ),
    }
}

/// A result whose error is a text.
pub open spec fn said<T>(r: Result<T, String>) -> Result<T, Seq<char>> {
    match r {
        Ok(v) => Ok(v),
        Err(e) => Err(e@),
    }
}

fn status_name_of(s: Status) -> (r: &'static str)
    ensures
        r@ == status_name(s),
{
    match s {
        Status::Seen => "Seen",
        Status::Queued => "Queued",
        Status::Processing => "Processing",
        Status::Done => "Done",
        Status::Failed => "Failed",
        Status::Skipped => "Skipped",
    }
}

/// The status that rows are pruned by, or why they are not.
pub fn prune_status(word: &str) -> (r: Result<Status, String>)
    ensures
        said(r) == prune_status_of(word@),
{
    match Status::from_str(word) {
        Ok(s) => match s {
            Status::Done => Ok(s),
            Status::Failed => Ok(s),
            Status::Skipped => Ok(s),
            _ => {
                let mut m = String::from_str("pruning status ");
                m.append(status_name_of(s));
                m.append(" is not allowed; use one of: done, failed, skipped");
                Err(m)
            },
        },
        Err(_) => {
            let mut m = String::from_str("invalid status ");
            m.append(quote(word).as_str());
            m.append(" — allowed values: done, failed, skipped");
            Err(m)
        },
    }
}

// ---------------------------------------------------------------- dates

/// Midnight UTC on the day that a text in the form `YYYY-MM-DD` names.
pub uninterp spec fn iso_midnight(s: Seq<char>) -> Option<int>;

/// An optional time as an integer.
pub open spec fn time_view(t: Option<i64>) -> Option<int> {
    match t {
        Some(n) => Some(n as int),
        None => None,
    }
}

/// `chrono::NaiveDate::parse_from_str` with `%Y-%m-%d`, taken at midnight UTC: the
/// seconds since the Unix epoch, or none where the text names no day. It depends on
/// the text alone.
#[verifier::external_body]
fn midnight_of(s: &str) -> (r: Option<i64>)
    ensures
        time_view(r) == iso_midnight(s@),
{
    let date = chrono::NaiveDate::parse_from_str(s, "%Y-%m-%d").ok()?;
    Some(date.and_hms_opt(0, 0, 0)?.and_utc().timestamp())
}

/// A number of days or weeks back, where the text ends in `suffix`.
pub open spec fn relative(s: Seq<char>, suffix: Seq<char>) -> Option<Seq<char>> {
    if text::ends_with(s, suffix) {
        Some(s.take(s.len() - suffix.len()))
    } else {
        None
    }
}

/// A number of units back: none where the text is no integer that fits.
pub open spec fn units(body: Seq<char>) -> Option<int> {
    match number::integer_of(body) {
        Some(n) => if i64::MIN <= n <= i64::MAX {
            Some(n)
        } else {
            None
        },
        None => None,
    }
}

/// The time that lies so many units before now, or why there is none.
pub open spec fn back(
    s: Seq<char>,
    body: Seq<char>,
    unit: int,
    noun: Seq<char>,
    suffix: Seq<char>,
    now: int,
) -> Result<int, Seq<char>> {
    match units(body) {
        Some(n) => if n < 0 {
            Err("relative duration must be positive, got "@ + number::decimal(n) + suffix)
        } else {
            Ok(now - n * unit)
        },
        None => Err("invalid number of "@ + noun + " in "@ + text::quoted(s)),
    }
}

/// The time that a date or a duration means, given what day the text names.
pub open spec fn before_of(s: Seq<char>, now: int, midnight: Option<int>) -> Result<int, Seq<char>> {
    match relative(s, "d"@) {
        Some(body) => back(s, body, 86400, "days"@, "d"@, now),
        None => match relative(s, "w"@) {
            Some(body) => back(s, body, 604800, "weeks"@, "w"@, now),
            None => match midnight {
                Some(t) => Ok(t),
                None => Err(
                    "expected ISO date (YYYY-MM-DD) or relative duration (e.g. 30d, 7d, 2w); got "@
                        + text::quoted(s),
                ),
            },
        },
    }
}

/// Whether the time that lies so many units before now can be computed.
pub open spec fn back_fits(body: Seq<char>, unit: int, now: int) -> bool {
    match units(body) {
        Some(n) => n >= 0 ==> n * unit <= i64::MAX && i64::MIN <= now - n * unit,
        None => true,
    }
}

/// Whether the time that a duration means can be computed.
pub open spec fn before_fits(s: Seq<char>, now: int) -> bool {
    &&& relative(s, "d"@) matches Some(body) ==> back_fits(body, 86400, now)
    &&& relative(s, "w"@) matches Some(body) ==> back_fits(body, 604800, now)
}

/// A result that is a time or a message.
pub open spec fn moment(r: Result<i64, String>) -> Result<int, Seq<char>> {
    match r {
        Ok(t) => Ok(t as int),
        Err(e) => Err(e@),
    }
}

fn back_from(s: &str, body: &str, unit: i64, noun: &str, suffix: &str, now: i64) -> (r: Result<
    i64,
    String,
>)
    requires
        unit == 86400 || unit == 604800,
        back_fits(body@, unit as int, now as int),
    ensures
        moment(r) == back(s@, body@, unit as int, noun@, suffix@, now as int),
{
    match parse_integer(body) {
        Some(n) => if n < 0 {
            let mut m = String::from_str("relative duration must be positive, got ");
            m.append(integer_text(n).as_str());
            m.append(suffix);
            Err(m)
        } else {
            assert(n * unit >= 0) by (nonlinear_arith)
                requires
                    n >= 0,
                    unit >= 0,
            ;
            Ok(now - n * unit)
        },
        None => {
            let mut m = String::from_str("invalid number of ");
            m.append(noun);
            m.append(" in ");
            m.append(quote(s).as_str());
            Err(m)
        },
    }
}

/// The time that a date or a duration means, given what day the text names.
pub fn before_from(s: &str, now: i64, midnight: Option<i64>) -> (r: Result<i64, String>)
    requires
        before_fits(s@, now as int),
    ensures
        moment(r) == before_of(s@, now as int, time_view(midnight)),
{
    if let Some(body) = strip_back(s, "d") {
        return back_from(s, body, 86400, "days", "d", now);
    }
    if let Some(body) = strip_back(s, "w") {
        return back_from(s, body, 604800, "weeks", "w", now);
    }
    match midnight {
        Some(t) => Ok(t),
        None => {
            let mut m = String::from_str(
                "expected ISO date (YYYY-MM-DD) or relative duration (e.g. 30d, 7d, 2w); got ",
            );
            m.append(quote(s).as_str());
            Err(m)
        },
    }
}

/// The time before which rows are pruned, in seconds since the Unix epoch: so many
/// days (`30d`) or weeks (`2w`) before now, or midnight UTC on a day (`2025-01-01`).
pub fn parse_before(s: &str, now: i64) -> (r: Result<i64, String>)
    requires
        before_fits(s@, now as int),
    ensures
        moment(r) == before_of(s@, now as int, iso_midnight(s@)),
{
    let midnight = midnight_of(s);
    before_from(s, now, midnight)
}

// ---------------------------------------------------------------- report

/// What was pruned, or would be.
#[derive(Debug, Clone)]
pub struct PruneResult {
    pub file_count: u64,
    pub output_count: u64,
    /// The rows that would go, on a dry run.
    pub files: Vec<FileRow>,
}

/// A line of the table of rows.
pub open spec fn prune_columns(
    id: Seq<char>,
    status: Seq<char>,
    path: Seq<char>,
    size: Seq<char>,
    updated: Seq<char>,
) -> Seq<char> {
    "  "@ + text::pad_right(id, 6) + "  "@ + text::pad_right(status, 10) + "  "@ + text::pad_right(
        path,
        45,
    ) + "  "@ + text::pad_left(size, 9) + "  "@ + text::pad_right(updated, 19)
}

fn columns_line(id: &str, status: &str, path: &str, size: &str, updated: &str) -> (r: String)
    ensures
        r@ == prune_columns(id@, status@, path@, size@, updated@),
{
    let mut s = String::from_str("  ");
    s.append(padded_right(id, 6).as_str());
    s.append("  ");
    s.append(padded_right(status, 10).as_str());
    s.append("  ");
    s.append(padded_right(path, 45).as_str());
    s.append("  ");
    s.append(padded_left(size, 9).as_str());
    s.append("  ");
    s.append(padded_right(updated, 19).as_str());
    s
}

/// The rule below the heads of the columns.
pub open spec fn prune_rule() -> Seq<char> {
    "  "@ + text::repeat('-', 6) + "  "@ + text::repeat('-', 10) + "  "@ + text::repeat('-', 45) + "  "@
        + text::repeat('-', 9) + "  "@ + text::repeat('-', 19)
}

fn prune_rule_line() -> (r: String)
    ensures
        r@ == prune_rule(),
{
    let mut s = String::from_str("  ");
    s.append(repeated('-', 6).as_str());
    s.append("  ");
    s.append(repeated('-', 10).as_str());
    s.append("  ");
    s.append(repeated('-', 45).as_str());
    s.append("  ");
    s.append(repeated('-', 9).as_str());
    s.append("  ");
    s.append(repeated('-', 19).as_str());
    s
}

/// The line of a row, given how the time of its last update is shown.
pub open spec fn prune_row(row: FileRow, updated: Seq<char>) -> Seq<char> {
    prune_columns(
        number::decimal(row.id as int),
        types::status_word(row.status),
        display::short_path(row.path@, 45),
        match row.size {
            Some(b) => display::size_text(b as int),
            None => "—"@,
        },
        updated,
    )
}

/// The line of a row, given how the time of its last update is shown.
pub fn prune_line(row: &FileRow, updated: &str) -> (r: String)
    ensures
        r@ == prune_row(*row, updated@),
{
    let size = match row.size {
        Some(b) => fmt_bytes(b),
        None => String::from_str("—"),
    };
    columns_line(
        integer_text(row.id).as_str(),
        row.status.as_str(),
        truncate_path(row.path.as_str(), 45).as_str(),
        size.as_str(),
        updated,
    )
}

/// What is said ahead of the table on a dry run.
pub open spec fn prune_head(n: PruneResult) -> Seq<Seq<char>> {
    seq![
        "Dry run: would prune "@ + number::decimal(n.file_count as int) + " file record(s) and "@
            + number::decimal(n.output_count as int) + " output record(s):\n"@,
        prune_columns("ID"@, "Status"@, "Path"@, "Size"@, "Updated"@),
        prune_rule(),
    ]
}

/// The lines of the rows, given how the times of their last updates are shown.
pub open spec fn prune_rows(files: Seq<FileRow>, updated: Seq<Seq<char>>) -> Seq<Seq<char>> {
    Seq::new(files.len(), |i: int| prune_row(files[i], updated[i]))
}

/// What is said of a pruning, given how the times of the rows are shown.
pub open spec fn prune_lines(n: PruneResult, dry_run: bool, updated: Seq<Seq<char>>) -> Seq<
    Seq<char>,
> {
    if dry_run {
        if n.file_count == 0 {
            seq!["Dry run: no matching records found."@]
        } else {
            prune_head(n) + prune_rows(n.files@, updated) + seq!["\n(Dry run — no changes made.)"@]
        }
    } else if n.file_count == 0 {
        seq!["No matching records found; nothing pruned."@]
    } else {
        seq![
            "Pruned "@ + number::decimal(n.file_count as int) + " file record(s) and "@
                + number::decimal(n.output_count as int) + " output record(s)."@,
        ]
    }
}

/// What is said of a pruning, given how the times of the rows are shown.
pub fn prune_report_with(n: &PruneResult, dry_run: bool, updated: &Vec<String>) -> (r: Vec<String>)
    requires
        updated@.len() == n.files@.len(),
    ensures
        views(r@) == prune_lines(*n, dry_run, views(updated@)),
{
    let mut out: Vec<String> = Vec::new();
    let ghost us = views(updated@);
    let files_said = unsigned_text(n.file_count);
    let outputs_said = unsigned_text(n.output_count);
    if dry_run {
        if n.file_count == 0 {
            add_fixed(&mut out, "Dry run: no matching records found.");
            assert(views(out@) =~= prune_lines(*n, dry_run, us));
            return out;
        }
        let mut s = String::from_str("Dry run: would prune ");
        s.append(files_said.as_str());
        s.append(" file record(s) and ");
        s.append(outputs_said.as_str());
        s.append(" output record(s):\n");
        add_line(&mut out, s);
        add_line(&mut out, columns_line("ID", "Status", "Path", "Size", "Updated"));
        add_line(&mut out, prune_rule_line());
        let ghost head = views(out@);
        assert(head =~= prune_head(*n));
        let mut i: usize = 0;
        assert(views(out@) =~= head + prune_rows(n.files@.take(0), us));
        while i < n.files.len()
            invariant
                i <= n.files@.len(),
                updated@.len() == n.files@.len(),
                us == views(updated@),
                views(out@) == head + prune_rows(n.files@.take(i as int), us),
            decreases n.files@.len() - i,
        {
            add_line(&mut out, prune_line(&n.files[i], updated[i].as_str()));
            i = i + 1;
            assert(views(out@) =~= head + prune_rows(n.files@.take(i as int), us));
        }
        assert(n.files@.take(i as int) =~= n.files@);
        add_fixed(&mut out, "\n(Dry run — no changes made.)");
        out
    } else {
        if n.file_count == 0 {
            add_fixed(&mut out, "No matching records found; nothing pruned.");
        } else {
            let mut s = String::from_str("Pruned ");
            s.append(files_said.as_str());
            s.append(" file record(s) and ");
            s.append(outputs_said.as_str());
            s.append(" output record(s).");
            add_line(&mut out, s);
        }
        assert(views(out@) =~= prune_lines(*n, dry_run, us));
        out
    }
}

/// Whether `updated` are the times of the rows.
pub open spec fn are_update_times(updated: Seq<Seq<char>>, files: Seq<FileRow>) -> bool {
    updated.len() == files.len() && forall|i: int|
        0 <= i < files.len() ==> display::shows_time(#[trigger] updated[i], files[i].updated_at)
}

/// What is said of a pruning, with times in the zone of the machine.
pub fn prune_report(n: &PruneResult, dry_run: bool) -> (r: Vec<String>)
    ensures
        exists|updated: Seq<Seq<char>>|
            are_update_times(updated, n.files@) && views(r@) == #[trigger] prune_lines(
                *n,
                dry_run,
                updated,
            ),
{
    let mut updated: Vec<String> = Vec::new();
    let mut i: usize = 0;
    while i < n.files.len()
        invariant
            i <= n.files@.len(),
            updated@.len() == i,
            forall|j: int|
                0 <= j < i ==> display::shows_time(
                    #[trigger] updated@[j]@,
                    n.files@[j].updated_at,
                ),
        decreases n.files@.len() - i,
    {
        updated.push(fmt_ts(n.files[i].updated_at));
        i = i + 1;
    }
    proof {
        let us = views(updated@);
        assert forall|j: int| 0 <= j < n.files@.len() implies display::shows_time(
            #[trigger] us[j],
            n.files@[j].updated_at,
        ) by {
            assert(us[j] == updated@[j]@);
        }
        assert(are_update_times(us, n.files@));
    }
    prune_report_with(n, dry_run, &updated)
}

} // verus!
