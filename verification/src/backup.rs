//! Backups of the database: where they go, when they are sound, how old the last one
//! is, and the steps by which one is put back.

use vstd::prelude::*;
use vstd::string::*;

use crate::display;
use crate::display::fmt_bytes;
use crate::json::text_view;
use crate::paths;
use crate::paths::{extension_of, join_path, parent_of};
use crate::text;
use crate::text::{add_fixed, add_line, joined, replaced, same_text, trimmed, views};

verus! {

/// What `kb backup` is asked for.
#[derive(Debug, Clone)]
pub struct BackupArgs {
    /// Where the backup goes.
    pub output: Option<String>,
}

/// What `kb restore` is asked for.
#[derive(Debug, Clone)]
pub struct RestoreArgs {
    pub backup_path: String,
    /// Whether nobody is asked.
    pub force: bool,
}

// ---------------------------------------------------------------- places

/// The directory of the backups of a database.
pub open spec fn backups_place(db_path: Seq<char>) -> Seq<char> {
    paths::join(
        match paths::parent(db_path) {
            Some(p) => p,
            None => "."@,
        },
        "backups"@,
    )
}

/// The directory of the backups of a database.
pub fn backups_dir(db_path: &str) -> (r: String)
    ensures
        r@ == backups_place(db_path@),
{
    match parent_of(db_path) {
        Some(p) => join_path(p.as_str(), "backups"),
        None => join_path(".", "backups"),
    }
}

/// The backup of a day.
pub open spec fn backup_place(db_path: Seq<char>, date: Seq<char>) -> Seq<char> {
    paths::join(backups_place(db_path), "state-"@ + date + ".db"@)
}

/// The backup of a day.
pub fn backup_path_on(db_path: &str, date: &str) -> (r: String)
    ensures
        r@ == backup_place(db_path@, date@),
{
    let mut name = String::from_str("state-");
    name.append(date);
    name.append(".db");
    join_path(backups_dir(db_path).as_str(), name.as_str())
}

/// `chrono::Local::now` with `%Y-%m-%d`: a day of the calendar. Which day it is depends
/// on the time and the zone of the machine, so nothing is said of that.
#[verifier::external_body]
fn today() -> (r: String)
    ensures
        exists|z: int| r@ == #[trigger] display::day_text(z),
{
    chrono::Local::now().format("%Y-%m-%d").to_string()
}

/// The backup of today.
pub fn default_backup_path(db_path: &str) -> (r: String)
    ensures
        exists|z: int| r@ == backup_place(db_path@, #[trigger] display::day_text(z)),
{
    let date = today();
    backup_path_on(db_path, date.as_str())
}

/// Where a backup goes: where it was asked for, or to the place of today.
pub fn backup_target(args: &BackupArgs, db_path: &str) -> (r: String)
    ensures
        match args.output {
            Some(p) => r@ == p@,
            None => exists|z: int|
                r@ == backup_place(db_path@, #[trigger] display::day_text(z)),
        },
{
    match &args.output {
        Some(p) => p.clone(),
        None => default_backup_path(db_path),
    }
}

// ---------------------------------------------------------------- age

/// A point in time: seconds since the Unix epoch, and the part of the next second.
#[derive(Debug, Clone, Copy, PartialEq, Eq, Structural)]
pub struct Moment {
    pub secs: i64,
    pub nanos: u32,
}

/// Whether `a` lies before `b`.
pub open spec fn earlier(a: Moment, b: Moment) -> bool {
    a.secs < b.secs || (a.secs == b.secs && a.nanos < b.nanos)
}

fn is_earlier(a: Moment, b: Moment) -> (r: bool)
    ensures
        r == earlier(a, b),
{
    a.secs < b.secs || (a.secs == b.secs && a.nanos < b.nanos)
}

/// A file in the directory of the backups.
#[derive(Debug, Clone)]
pub struct BackupFile {
    pub path: String,
    /// When it was last written, where that is known.
    pub modified: Option<Moment>,
}

/// Whether a file is a backup whose age is known.
pub open spec fn dated_backup(f: BackupFile) -> bool {
    paths::extension(f.path@) == Some("db"@) && f.modified is Some
}

/// Whether `m` is when the newest backup was written.
pub open spec fn is_newest(files: Seq<BackupFile>, m: Moment) -> bool {
    &&& exists|i: int|
        0 <= i < files.len() && dated_backup(#[trigger] files[i]) && files[i].modified == Some(m)
    &&& forall|i: int|
        0 <= i < files.len() && dated_backup(#[trigger] files[i]) ==> !earlier(m, files[i].modified->0)
}

/// Whether no file is a backup whose age is known.
pub open spec fn no_backup(files: Seq<BackupFile>) -> bool {
    forall|i: int| 0 <= i < files.len() ==> !dated_backup(#[trigger] files[i])
}

/// The whole days from `m` to `now`; none where `m` is not in the past.
pub open spec fn days_between(m: Moment, now: Moment) -> int {
    if earlier(m, now) {
        (now.secs - m.secs - (if now.nanos < m.nanos {
            1int
        } else {
            0
        })) / 86400
    } else {
        0
    }
}

fn newest_of(files: &Vec<BackupFile>) -> (r: Option<Moment>)
    ensures
        match r {
            Some(m) => is_newest(files@, m),
            None => no_backup(files@),
        },
{
    let mut best: Option<Moment> = None;
    let mut i: usize = 0;
    while i < files.len()
        invariant
            i <= files@.len(),
            match best {
                Some(m) => {
                    &&& exists|j: int|
                        0 <= j < i && dated_backup(#[trigger] files@[j]) && files@[j].modified == Some(m)
                    &&& forall|j: int|
                        0 <= j < i && dated_backup(#[trigger] files@[j]) ==> !earlier(
                            m,
                            files@[j].modified->0,
                        )
                },
                None => forall|j: int| 0 <= j < i ==> !dated_backup(#[trigger] files@[j]),
            },
        decreases files@.len() - i,
    {
        let is_db = match extension_of(files[i].path.as_str()) {
            Some(e) => same_text(e.as_str(), "db"),
            None => false,
        };
        assert(is_db == (paths::extension(files@[i as int].path@) == Some("db"@)));
        if is_db {
            if let Some(m) = files[i].modified {
                assert(dated_backup(files@[i as int]));
                let ghost was = best;
                match best {
                    Some(b) => {
                        if is_earlier(b, m) {
                            best = Some(m);
                        }
                    },
                    None => {
                        best = Some(m);
                    },
                }
            }
        }
        i = i + 1;
    }
    best
}

/// How many whole days ago the newest backup was written; none where there is no
/// backup.
pub fn last_backup_age_days(files: &Vec<BackupFile>, now: Moment) -> (r: Option<u64>)
    ensures
        match r {
            Some(n) => exists|m: Moment|
                #[trigger] is_newest(files@, m) && n == days_between(m, now),
            None => no_backup(files@),
        },
{
    match newest_of(files) {
        Some(m) => {
            if !is_earlier(m, now) {
                return Some(0);
            }
            let whole: i128 = now.secs as i128 - m.secs as i128;
            let secs: i128 = if now.nanos < m.nanos {
                whole - 1
            } else {
                whole
            };
            let days: i128 = secs / 86400;
            assert(days == days_between(m, now));
            Some(days as u64)
        },
        None => None,
    }
}

// ---------------------------------------------------------------- making one

/// Whether the rows of an integrity check say that a database is sound: one row, `ok`.
pub open spec fn sound(rows: Seq<Seq<char>>) -> bool {
    rows.len() == 1 && rows[0] == "ok"@
}

/// Whether the rows of an integrity check say that a database is sound.
pub fn integrity_ok(rows: &Vec<String>) -> (b: bool)
    ensures
        b == sound(views(rows@)),
{
    if rows.len() != 1 {
        return false;
    }
    assert(views(rows@)[0] == rows@[0]@);
    same_text(rows[0].as_str(), "ok")
}

/// A text inside an SQL literal: its single quotes doubled.
pub open spec fn sql_quoted(s: Seq<char>) -> Seq<char> {
    text::replace_all(s, "'"@, "''"@)
}

/// The statement that writes a compact copy of the database.
pub fn vacuum_sql(backup_path: &str) -> (r: String)
    ensures
        r@ == "VACUUM INTO '"@ + sql_quoted(backup_path@) + "'"@,
{
    let mut s = String::from_str("VACUUM INTO '");
    proof {
        reveal_strlit("'");
    }
    s.append(replaced(backup_path, "'", "''").as_str());
    s.append("'");
    s
}

/// What is said where there is no database to back up.
pub fn no_database(db_path: &str) -> (r: String)
    ensures
        r@ == "Database not found at '"@ + db_path@
            + "'.\nStart the daemon at least once to create it, then re-run `kb backup`."@,
{
    let mut s = String::from_str("Database not found at '");
    s.append(db_path);
    s.append("'.\nStart the daemon at least once to create it, then re-run `kb backup`.");
    s
}

/// What comes of a backup that was written: a line on it, or, where it is not sound,
/// an error; the file is then deleted.
pub fn backup_outcome(backup_path: &str, rows: &Vec<String>, size: i64) -> (r: Result<String, String>)
    ensures
        match r {
            Ok(s) => sound(views(rows@)) && s@ == "Backup created: "@ + backup_path@ + " ("@
                + display::size_text(size as int) + ")"@,
            Err(e) => !sound(views(rows@)) && e@ == "Backup integrity check failed:\n  "@ + text::join(
                views(rows@),
                "\n  "@,
            )
                + "\nThe corrupt backup file has been deleted. Re-run `kb backup` after investigating the database."@,
        },
{
    if integrity_ok(rows) {
        let mut s = String::from_str("Backup created: ");
        s.append(backup_path);
        s.append(" (");
        s.append(fmt_bytes(size).as_str());
        s.append(")");
        Ok(s)
    } else {
        let mut s = String::from_str("Backup integrity check failed:\n  ");
        s.append(joined(rows, "\n  ").as_str());
        s.append(
            "\nThe corrupt backup file has been deleted. Re-run `kb backup` after investigating the database.",
        );
        Err(s)
    }
}

// ---------------------------------------------------------------- putting one back

/// Where the database goes while a backup takes its place.
pub open spec fn bak_place(db_path: Seq<char>) -> Seq<char> {
    db_path + ".bak"@
}

/// Where the database goes while a backup takes its place.
pub fn bak_path(db_path: &str) -> (r: String)
    ensures
        r@ == bak_place(db_path@),
{
    let mut s = String::from_str(db_path);
    s.append(".bak");
    s
}

/// The lines ahead of the question whether to go on.
pub open spec fn warning_lines(db_path: Seq<char>, backup_path: Seq<char>) -> Seq<Seq<char>> {
    seq![
        ""@,
        "⚠️  WARNING: This operation will REPLACE the current database."@,
        ""@,
        "  Current database : "@ + db_path,
        "  Will be moved to : "@ + bak_place(db_path),
        "  Restoring from   : "@ + backup_path,
        ""@,
    ]
}

/// The lines ahead of the question whether to go on.
pub fn restore_warning(db_path: &str, backup_path: &str) -> (r: Vec<String>)
    ensures
        views(r@) == warning_lines(db_path@, backup_path@),
{
    let mut out: Vec<String> = Vec::new();
    let mut current = String::from_str("  Current database : ");
    current.append(db_path);
    let mut moved = String::from_str("  Will be moved to : ");
    moved.append(bak_path(db_path).as_str());
    let mut from = String::from_str("  Restoring from   : ");
    from.append(backup_path);
    add_fixed(&mut out, "");
    add_fixed(&mut out, "⚠️  WARNING: This operation will REPLACE the current database.");
    add_fixed(&mut out, "");
    add_line(&mut out, current);
    add_line(&mut out, moved);
    add_line(&mut out, from);
    add_fixed(&mut out, "");
    assert(views(out@) =~= warning_lines(db_path@, backup_path@));
    out
}

/// What a restore does, one thing after the other.
#[derive(Debug, Clone, Copy, PartialEq, Eq, Structural)]
pub enum RestoreStep {
    /// Is the backup there?
    FindBackup,
    /// What does the integrity check say of it?
    CheckBackup,
    /// Does a daemon hold the lock?
    ProbeLock,
    /// What does the operator answer?
    Confirm,
    /// The database is moved to its other name, where there is one.
    MoveAside,
    /// The directory of the database is made.
    MakeParent,
    /// The backup is copied to the place of the database.
    CopyBackup,
}

/// How a step of a restore went.
#[derive(Debug, Clone)]
pub enum RestoreEvent {
    Yes,
    No,
    /// The rows of the integrity check.
    Rows(Vec<String>),
    /// What the operator typed.
    Answer(String),
    Failed(String),
}

/// How a step of a restore went, over texts.
pub enum EventView {
    Yes,
    No,
    Rows(Seq<Seq<char>>),
    Answer(Seq<char>),
    Failed(Seq<char>),
}

impl View for RestoreEvent {
    type V = EventView;

    open spec fn view(&self) -> EventView {
        match *self {
            RestoreEvent::Yes => EventView::Yes,
            RestoreEvent::No => EventView::No,
            RestoreEvent::Rows(v) => EventView::Rows(views(v@)),
            RestoreEvent::Answer(s) => EventView::Answer(s@),
            RestoreEvent::Failed(e) => EventView::Failed(e@),
        }
    }
}

/// Why a restore ended.
#[derive(Debug, Clone)]
pub struct RestoreError {
    pub message: String,
    pub cause: Option<String>,
}

/// What comes after a step of a restore.
#[derive(Debug, Clone)]
pub enum RestoreNext {
    Go(RestoreStep),
    /// The backup is in place.
    Done(String),
    Fail(RestoreError),
    /// The database that was moved aside is moved back; then the restore has failed.
    MoveBackAndFail(RestoreError),
}

/// What comes after a step of a restore, over texts.
pub enum NextView {
    Go(RestoreStep),
    Done(Seq<char>),
    Fail(Seq<char>, Option<Seq<char>>),
    MoveBackAndFail(Seq<char>, Option<Seq<char>>),
}

impl View for RestoreNext {
    type V = NextView;

    open spec fn view(&self) -> NextView {
        match *self {
            RestoreNext::Go(s) => NextView::Go(s),
            RestoreNext::Done(m) => NextView::Done(m@),
            RestoreNext::Fail(e) => NextView::Fail(e.message@, text_view(e.cause)),
            RestoreNext::MoveBackAndFail(e) => NextView::MoveBackAndFail(
                e.message@,
                text_view(e.cause),
            ),
        }
    }
}

/// Whether an event is one that a step can end with.
pub open spec fn fits(step: RestoreStep, e: EventView) -> bool {
    match step {
        RestoreStep::FindBackup => e is Yes || e is No,
        RestoreStep::CheckBackup => e is Rows || e is Failed,
        RestoreStep::ProbeLock => e is Yes || e is No,
        RestoreStep::Confirm => e is Answer || e is Failed,
        _ => e is Yes || e is Failed,
    }
}

/// The step after the checks: the operator is asked, or not.
pub open spec fn after_checks(force: bool) -> RestoreStep {
    if force {
        RestoreStep::MoveAside
    } else {
        RestoreStep::Confirm
    }
}

/// What comes after a step of a restore.
pub open spec fn next_of(
    force: bool,
    backup_path: Seq<char>,
    db_path: Seq<char>,
    step: RestoreStep,
    e: EventView,
) -> NextView {
    match (step, e) {
        (RestoreStep::FindBackup, EventView::Yes) => NextView::Go(RestoreStep::CheckBackup),
        (RestoreStep::FindBackup, _) => NextView::Fail(
            "Backup file not found: '"@ + backup_path
                + "'\nUse `kb backup --output <path>` to create one."@,
            None,
        ),
        (RestoreStep::CheckBackup, EventView::Rows(rows)) => if sound(rows) {
            NextView::Go(RestoreStep::ProbeLock)
        } else {
            NextView::Fail(
                "Backup integrity check failed — the backup file appears corrupt:\n  "@ + text::join(
                    rows,
                    "\n  "@,
                ) + "\nRestore aborted. The live database was NOT modified."@,
                None,
            )
        },
        (RestoreStep::CheckBackup, EventView::Failed(m)) => NextView::Fail(m, None),
        (RestoreStep::ProbeLock, EventView::No) => NextView::Go(after_checks(force)),
        (RestoreStep::ProbeLock, _) => NextView::Fail(
            "The knowledge-builder daemon is currently running and holds the database lock.\nStop it first:\n\n  launchctl stop com.user.knowledge-builder\n\nThen retry `kb restore '"@
                + backup_path + "'`."@,
            None,
        ),
        (RestoreStep::Confirm, EventView::Answer(a)) => if text::trim(a) == "yes"@ {
            NextView::Go(RestoreStep::MoveAside)
        } else {
            NextView::Fail("Restore cancelled. The live database was NOT modified."@, None)
        },
        (RestoreStep::Confirm, EventView::Failed(m)) => NextView::Fail(
            "failed to read confirmation from stdin"@,
            Some(m),
        ),
        (RestoreStep::MoveAside, EventView::Yes) => NextView::Go(RestoreStep::MakeParent),
        (RestoreStep::MoveAside, EventView::Failed(m)) => NextView::Fail(
            "cannot move current database '"@ + db_path + "' to backup location '"@ + bak_place(
                db_path,
            ) + "'"@,
            Some(m),
        ),
        (RestoreStep::MakeParent, EventView::Yes) => NextView::Go(RestoreStep::CopyBackup),
        (RestoreStep::MakeParent, EventView::Failed(m)) => NextView::Fail(
            "cannot create database parent directory '"@ + (match paths::parent(db_path) {
                Some(p) => p,
                None => ""@,
            }) + "'"@,
            Some(m),
        ),
        (RestoreStep::CopyBackup, EventView::Yes) => NextView::Done(
            "Restored from: "@ + backup_path + ". Previous DB saved to "@ + bak_place(db_path),
        ),
        (RestoreStep::CopyBackup, EventView::Failed(m)) => NextView::MoveBackAndFail(
            "failed to copy '"@ + backup_path + "' → '"@ + db_path
                + "'; attempted to restore the original database"@,
            Some(m),
        ),
        _ => NextView::Fail(""@, None),
    }
}

fn stopped(message: String, cause: Option<String>) -> (r: RestoreNext)
    ensures
        r@ == NextView::Fail(message@, text_view(cause)),
{
    RestoreNext::Fail(RestoreError { message, cause })
}

/// What comes after a step of a restore. The live database is not touched before the
/// backup was found sound, no daemon runs, and the operator agreed.
pub fn restore_next(args: &RestoreArgs, db_path: &str, step: RestoreStep, event: RestoreEvent) -> (r:
    RestoreNext)
    requires
        fits(step, event@),
    ensures
        r@ == next_of(args.force, args.backup_path@, db_path@, step, event@),
{
    match (step, event) {
        (RestoreStep::FindBackup, RestoreEvent::Yes) => RestoreNext::Go(RestoreStep::CheckBackup),
        (RestoreStep::FindBackup, _) => {
            let mut s = String::from_str("Backup file not found: '");
            s.append(args.backup_path.as_str());
            s.append("'\nUse `kb backup --output <path>` to create one.");
            stopped(s, None)
        },
        (RestoreStep::CheckBackup, RestoreEvent::Rows(rows)) => {
            if integrity_ok(&rows) {
                RestoreNext::Go(RestoreStep::ProbeLock)
            } else {
                let mut s = String::from_str(
                    "Backup integrity check failed — the backup file appears corrupt:\n  ",
                );
                s.append(joined(&rows, "\n  ").as_str());
                s.append("\nRestore aborted. The live database was NOT modified.");
                stopped(s, None)
            }
        },
        (RestoreStep::CheckBackup, RestoreEvent::Failed(m)) => stopped(m, None),
        (RestoreStep::ProbeLock, RestoreEvent::No) => {
            if args.force {
                RestoreNext::Go(RestoreStep::MoveAside)
            } else {
                RestoreNext::Go(RestoreStep::Confirm)
            }
        },
        (RestoreStep::ProbeLock, _) => {
            let mut s = String::from_str(
                "The knowledge-builder daemon is currently running and holds the database lock.\nStop it first:\n\n  launchctl stop com.user.knowledge-builder\n\nThen retry `kb restore '",
            );
            s.append(args.backup_path.as_str());
            s.append("'`.");
            stopped(s, None)
        },
        (RestoreStep::Confirm, RestoreEvent::Answer(a)) => {
            if same_text(trimmed(a.as_str()), "yes") {
                RestoreNext::Go(RestoreStep::MoveAside)
            } else {
                stopped(
                    String::from_str("Restore cancelled. The live database was NOT modified."),
                    None,
                )
            }
        },
        (RestoreStep::Confirm, RestoreEvent::Failed(m)) => stopped(
            String::from_str("failed to read confirmation from stdin"),
            Some(m),
        ),
        (RestoreStep::MoveAside, RestoreEvent::Yes) => RestoreNext::Go(RestoreStep::MakeParent),
        (RestoreStep::MoveAside, RestoreEvent::Failed(m)) => {
            let mut s = String::from_str("cannot move current database '");
            s.append(db_path);
            s.append("' to backup location '");
            s.append(bak_path(db_path).as_str());
            s.append("'");
            stopped(s, Some(m))
        },
        (RestoreStep::MakeParent, RestoreEvent::Yes) => RestoreNext::Go(RestoreStep::CopyBackup),
        (RestoreStep::MakeParent, RestoreEvent::Failed(m)) => {
            let mut s = String::from_str("cannot create database parent directory '");
            match parent_of(db_path) {
                Some(p) => {
                    s.append(p.as_str());
                },
                None => {
                    s.append("");
                },
            }
            s.append("'");
            stopped(s, Some(m))
        },
        (RestoreStep::CopyBackup, RestoreEvent::Yes) => {
            let mut s = String::from_str("Restored from: ");
            s.append(args.backup_path.as_str());
            s.append(". Previous DB saved to ");
            s.append(bak_path(db_path).as_str());
            RestoreNext::Done(s)
        },
        (RestoreStep::CopyBackup, RestoreEvent::Failed(m)) => {
            let mut s = String::from_str("failed to copy '");
            s.append(args.backup_path.as_str());
            s.append("' → '");
            s.append(db_path);
            s.append("'; attempted to restore the original database");
            RestoreNext::MoveBackAndFail(RestoreError { message: s, cause: Some(m) })
        },
        _ => stopped(String::from_str(""), None),
    }
}

// ---------------------------------------------------------------- laws

/// The steps that a restore takes from `step` on, given how each goes.
pub open spec fn restore_steps(
    force: bool,
    backup_path: Seq<char>,
    db_path: Seq<char>,
    step: RestoreStep,
    events: Seq<EventView>,
) -> Seq<RestoreStep>
    decreases events.len(),
{
    if events.len() == 0 {
        seq![]
    } else {
        seq![step] + match next_of(force, backup_path, db_path, step, events[0]) {
            NextView::Go(next) => restore_steps(
                force,
                backup_path,
                db_path,
                next,
                events.skip(1),
            ),
            _ => seq![],
        }
    }
}

/// Whether a step changes what is on disk.
pub open spec fn touches(step: RestoreStep) -> bool {
    step == RestoreStep::MoveAside || step == RestoreStep::MakeParent || step
        == RestoreStep::CopyBackup
}

/// Whether the operator agreed, or was not to be asked.
pub open spec fn agreed(force: bool, e: EventView) -> bool {
    force || (e matches EventView::Answer(a) && text::trim(a) == "yes"@)
}

/// A restore that changes anything found the backup, found it sound, found no daemon
/// running, and had the operator's consent.
pub proof fn law_restore_is_guarded(
    force: bool,
    backup_path: Seq<char>,
    db_path: Seq<char>,
    events: Seq<EventView>,
)
    requires
        exists|i: int|
            0 <= i < restore_steps(force, backup_path, db_path, RestoreStep::FindBackup, events).len()
                && touches(
                #[trigger] restore_steps(
                    force,
                    backup_path,
                    db_path,
                    RestoreStep::FindBackup,
                    events,
                )[i],
            ),
    ensures
        events.len() > 3,
        events[0] is Yes,
        events[1] matches EventView::Rows(rows) && sound(rows),
        events[2] is No,
        agreed(force, events[3]),
{
    let from = |s: RestoreStep, es: Seq<EventView>|
        restore_steps(force, backup_path, db_path, s, es);
    let all = from(RestoreStep::FindBackup, events);
    let i = choose|i: int| 0 <= i < all.len() && touches(#[trigger] all[i]);
    let e1 = events.skip(1);
    assert(i >= 1);
    assert(next_of(force, backup_path, db_path, RestoreStep::FindBackup, events[0]) is Go);
    let t1 = from(RestoreStep::CheckBackup, e1);
    assert(all == seq![RestoreStep::FindBackup] + t1);
    assert(all[i] == t1[i - 1]);
    assert(e1.len() > 0);
    assert(e1[0] == events[1]);
    let e2 = e1.skip(1);
    assert(next_of(force, backup_path, db_path, RestoreStep::CheckBackup, e1[0]) is Go);
    let t2 = from(RestoreStep::ProbeLock, e2);
    assert(t1 == seq![RestoreStep::CheckBackup] + t2);
    assert(t1[i - 1] == t2[i - 2]);
    assert(e2.len() > 0);
    assert(e2[0] == events[2]);
    let e3 = e2.skip(1);
    assert(next_of(force, backup_path, db_path, RestoreStep::ProbeLock, e2[0]) is Go);
    let t3 = from(after_checks(force), e3);
    assert(t2 == seq![RestoreStep::ProbeLock] + t3);
    assert(t2[i - 2] == t3[i - 3]);
    assert(e3.len() > 0);
    assert(e3[0] == events[3]);
    if !force {
        let e4 = e3.skip(1);
        assert(next_of(force, backup_path, db_path, RestoreStep::Confirm, e3[0]) is Go);
    }
}

/// A restore whose copy fails puts the database back.
pub proof fn law_failed_copy_is_undone(
    force: bool,
    backup_path: Seq<char>,
    db_path: Seq<char>,
    e: EventView,
)
    requires
        fits(RestoreStep::CopyBackup, e),
    ensures
        next_of(force, backup_path, db_path, RestoreStep::CopyBackup, e) is Done <==> e is Yes,
        next_of(force, backup_path, db_path, RestoreStep::CopyBackup, e) is MoveBackAndFail
            <==> e is Failed,
{
}

} // verus!
