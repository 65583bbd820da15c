//! What backing up, restoring, pruning, following and reporting are for.

use vstd::prelude::*;
use vstd::string::*;

use crate::backup::{
    backup_place, bak_place, dated_backup, days_between, is_newest, next_of, no_backup, sound,
    sql_quoted, BackupFile, EventView, Moment, NextView, RestoreStep,
};
use crate::config;
use crate::daemon::{
    drain_of, fatal, first_of, following, hears, plan_of, stops, Drain, Signal, Step,
};
use crate::display::size_text;
use crate::number;
use crate::number::decimal;
use crate::ops::{absent_fields, health_fields, wants, TailParams};
use crate::path_laws::law_joined_name;
use crate::paths;
use crate::paths::{components, is_name, join};
use crate::prune::{before_of, prune_lines, prune_status_of, PruneResult};
use crate::state::{count_of, pending_age, QueueFacts, StatusCount};
use crate::storage::{
    larger, lead, storage_lines, storage_row, total_line, widest_lead, widest_size, StorageRow,
    StorageStats,
};
use crate::tail::{colour, event_text, passes, rank, Colour};
use crate::target::{lookup_of, LookupView};
use crate::text;
use crate::text::{contains, ends_with, lower_ascii, replace_all, trim};
use crate::text_laws::{
    law_contains_grows, law_contains_sum, law_found_is_a_part, law_parts_are_found,
};
use crate::types::{law_status_round_trip, status_word, AuditEvent, Status};

verus! {

// ---------------------------------------------------------------- backups

/// The backup of a day lies in the directory `backups` beside the database, under the
/// name of the day.
pub proof fn law_backup_place(dir: Seq<char>, name: Seq<char>, date: Seq<char>)
    requires
        is_name(name),
        !date.contains('/'),
    ensures
        components(backup_place(join(dir, name), date)) == components(dir).push("backups"@).push(
            "state-"@ + date + ".db"@,
        ),
{
    let db = join(dir, name);
    law_joined_name(dir, name);
    let cs = components(db);
    assert(cs.last() == name);
    if name == seq!['/'] {
        assert(name[0] == '/');
    }
    paths::law_parent_drops_the_last(db);
    assert(cs.drop_last() =~= components(dir));
    let p = paths::parent(db)->0;
    reveal_strlit("backups");
    reveal_strlit("state-");
    reveal_strlit(".db");
    assert("backups"@.len() == 7);
    assert(!"backups"@.contains('/'));
    law_joined_name(p, "backups"@);
    let file = "state-"@ + date + ".db"@;
    assert(file.len() >= 9);
    assert forall|i: int| 0 <= i < file.len() implies file[i] != '/' by {
        if i < 6 {
            assert(file[i] == "state-"@[i]);
        } else if i < 6 + date.len() {
            assert(file[i] == date[i - 6]);
        } else {
            assert(file[i] == ".db"@[i - 6 - date.len()]);
        }
    }
    law_joined_name(join(p, "backups"@), file);
}

/// Of the backups the newest is the one that no other is later than; only files with the
/// extension `db` whose age is known are backups.
pub proof fn law_newest_backup(files: Seq<BackupFile>, m: Moment, i: int)
    requires
        0 <= i < files.len(),
        paths::extension(files[i].path@) == Some("db"@),
        files[i].modified is Some,
    ensures
        !no_backup(files),
        is_newest(files, m) ==> ({
            let t = files[i].modified->0;
            t.secs < m.secs || (t.secs == m.secs && t.nanos <= m.nanos)
        }),
        is_newest(files, m) ==> exists|j: int|
            0 <= j < files.len() && (#[trigger] files[j]).modified == Some(m) && paths::extension(
                files[j].path@,
            ) == Some("db"@),
{
    assert(dated_backup(files[i]));
    if is_newest(files, m) {
        let j = choose|j: int|
            0 <= j < files.len() && dated_backup(#[trigger] files[j]) && files[j].modified == Some(m);
        assert(files[j].modified == Some(m));
    }
}

/// The age of a backup is counted in whole days that have passed since it was written; a
/// backup from the future has none.
pub proof fn law_age_in_days(m: Moment, now: Moment)
    requires
        m.nanos < 1_000_000_000,
        now.nanos < 1_000_000_000,
    ensures
        ({
            let passed = (now.secs - m.secs) * 1_000_000_000 + now.nanos - m.nanos;
            let day = 86_400_000_000_000int;
            let d = days_between(m, now);
            &&& passed >= 0 ==> d * day <= passed && passed < (d + 1) * day
            &&& passed < 0 ==> d == 0
        }),
{
}

/// A database is sound where its check says the one word `ok`.
pub proof fn law_sound(rows: Seq<Seq<char>>)
    ensures
        sound(rows) <==> rows == seq!["ok"@],
{
    if sound(rows) {
        assert(rows =~= seq!["ok"@]);
    }
}

proof fn lemma_replace_one(a: Seq<char>, c: char, b: Seq<char>, with: Seq<char>)
    ensures
        replace_all(a + b, seq![c], with) == replace_all(a, seq![c], with) + replace_all(
            b,
            seq![c],
            with,
        ),
    decreases a.len(),
{
    let p = seq![c];
    let s = a + b;
    if a.len() == 0 {
        assert(s =~= b);
        assert(replace_all(a, p, with) =~= Seq::<char>::empty());
        assert(Seq::<char>::empty() + replace_all(b, p, with) =~= replace_all(b, p, with));
    } else {
        assert(s.skip(1) =~= a.skip(1) + b);
        lemma_replace_one(a.skip(1), c, b, with);
        assert(s.subrange(0, 1) =~= seq![s[0]]);
        assert(a.subrange(0, 1) =~= seq![a[0]]);
        assert(text::occurs_at(s, p, 0) <==> s[0] == c) by {
            assert(seq![s[0]][0] == s[0] && p[0] == c);
        }
        assert(text::occurs_at(a, p, 0) <==> a[0] == c) by {
            assert(seq![a[0]][0] == a[0] && p[0] == c);
        }
        let x = if a[0] == c {
            with
        } else {
            seq![a[0]]
        };
        let ra = replace_all(a.skip(1), p, with);
        let rb = replace_all(b, p, with);
        assert(x + (ra + rb) =~= x + ra + rb);
    }
}

/// In an SQL text each single quote is doubled, and every other character stays.
pub proof fn law_sql_quoted(a: Seq<char>, b: Seq<char>, c: char)
    ensures
        sql_quoted(Seq::<char>::empty()).len() == 0,
        sql_quoted(a + b) == sql_quoted(a) + sql_quoted(b),
        sql_quoted(seq!['\'']) == seq!['\'', '\''],
        c != '\'' ==> sql_quoted(seq![c]) == seq![c],
{
    reveal_strlit("'");
    reveal_strlit("''");
    assert("'"@ =~= seq!['\'']);
    assert("''"@ =~= seq!['\'', '\'']);
    lemma_replace_one(a, '\'', b, "''"@);
    let q = seq!['\''];
    let e = Seq::<char>::empty();
    assert(q.skip(1) =~= e);
    assert(q.subrange(0, 1) =~= q);
    assert(replace_all(e, q, "''"@) == e);
    assert(replace_all(q, q, "''"@) =~= "''"@ + e) by {
        reveal_with_fuel(replace_all, 2);
    }
    assert("''"@ + e =~= "''"@);
    if c != '\'' {
        let s = seq![c];
        assert(s.skip(1) =~= e);
        assert(s.subrange(0, 1) =~= s);
        assert(s[0] == c && q[0] == '\'');
        assert(replace_all(s, q, "''"@) =~= seq![c] + e) by {
            reveal_with_fuel(replace_all, 2);
        }
        assert(seq![c] + e =~= seq![c]);
    }
}

/// The database is set aside under another name, which tells the database.
pub proof fn law_set_aside(a: Seq<char>, b: Seq<char>)
    ensures
        bak_place(a) != a,
        bak_place(a) == bak_place(b) ==> a == b,
        ends_with(bak_place(a), ".bak"@),
{
    reveal_strlit(".bak");
    assert(bak_place(a).len() == a.len() + 4);
    if bak_place(a) == bak_place(b) {
        assert(a =~= bak_place(a).take(a.len() as int));
        assert(b =~= bak_place(b).take(b.len() as int));
    }
    law_parts_are_found(a, ".bak"@, Seq::empty());
}

/// A restore goes on only where each step went well: the backup is there and sound, no
/// daemon runs, and the operator agreed or was not to be asked. It sets the database
/// aside, makes its directory and copies the backup, in this order.
pub proof fn law_restore_order(
    force: bool,
    backup_path: Seq<char>,
    db_path: Seq<char>,
    e: EventView,
)
    ensures
        ({
            let after = |s: RestoreStep| next_of(force, backup_path, db_path, s, e);
            &&& after(RestoreStep::FindBackup) == NextView::Go(RestoreStep::CheckBackup) <==> e is Yes
            &&& after(RestoreStep::CheckBackup) == NextView::Go(RestoreStep::ProbeLock) <==> e
                == EventView::Rows(seq!["ok"@])
            &&& e is No ==> after(RestoreStep::ProbeLock) == NextView::Go(
                if force {
                    RestoreStep::MoveAside
                } else {
                    RestoreStep::Confirm
                },
            )
            &&& e is Yes ==> after(RestoreStep::ProbeLock) is Fail
            &&& after(RestoreStep::Confirm) == NextView::Go(RestoreStep::MoveAside) <==> (e matches
                EventView::Answer(a) && trim(a) == "yes"@)
            &&& after(RestoreStep::MoveAside) == NextView::Go(RestoreStep::MakeParent) <==> e is Yes
            &&& after(RestoreStep::MakeParent) == NextView::Go(RestoreStep::CopyBackup) <==> e is Yes
            &&& after(RestoreStep::CopyBackup) is Done <==> e is Yes
            &&& e is Failed ==> after(RestoreStep::CopyBackup) is MoveBackAndFail
            &&& !(e is Yes) ==> after(RestoreStep::FindBackup) is Fail
            &&& e is Failed ==> after(RestoreStep::MoveAside) is Fail && after(
                RestoreStep::MakeParent,
            ) is Fail && after(RestoreStep::CheckBackup) is Fail && after(RestoreStep::Confirm) is Fail
        }),
{
    if e is Rows {
        law_sound(e->Rows_0);
    }
}

// ---------------------------------------------------------------- pruning

/// The words of the statuses.
pub proof fn law_status_words()
    ensures
        status_word(Status::Seen) == "seen"@,
        status_word(Status::Queued) == "queued"@,
        status_word(Status::Processing) == "processing"@,
        status_word(Status::Done) == "done"@,
        status_word(Status::Failed) == "failed"@,
        status_word(Status::Skipped) == "skipped"@,
{
}

/// Only rows that are finished may be pruned, by the word of their status.
pub proof fn law_prunable(s: Status, w: Seq<char>)
    ensures
        prune_status_of(status_word(s)) == Ok::<Status, Seq<char>>(s) <==> s == Status::Done || s
            == Status::Failed || s == Status::Skipped,
        prune_status_of(w) matches Ok(t) ==> w == status_word(t) && (t == Status::Done || t
            == Status::Failed || t == Status::Skipped),
{
    law_status_round_trip(s, w);
}

/// A number of days or weeks means that long before now; any other text means the day
/// that it names, and is refused where it names none.
pub proof fn law_before(n: int, now: int, s: Seq<char>, midnight: Option<int>)
    requires
        0 <= n <= i64::MAX,
    ensures
        before_of(decimal(n) + "d"@, now, midnight) == Ok::<int, Seq<char>>(now - n * 86400),
        before_of(decimal(n) + "w"@, now, midnight) == Ok::<int, Seq<char>>(now - n * 7 * 86400),
        s.len() == 0 || (s.last() != 'd' && s.last() != 'w') ==> match midnight {
            Some(t) => before_of(s, now, midnight) == Ok::<int, Seq<char>>(t),
            None => before_of(s, now, midnight) is Err,
        },
{
    reveal_strlit("d");
    reveal_strlit("w");
    let d = decimal(n);
    number::law_decimal_round_trip(n);
    let a = d + "d"@;
    let b = d + "w"@;
    law_parts_are_found(d, "d"@, Seq::empty());
    law_parts_are_found(d, "w"@, Seq::empty());
    assert(a.take(a.len() - 1) =~= d);
    assert(b.take(b.len() - 1) =~= d);
    assert(b.last() == 'w');
    law_found_is_a_part(b, "d"@);
    if ends_with(b, "d"@) {
        assert(b.last() == "d"@.last());
    }
    law_found_is_a_part(s, "d"@);
    law_found_is_a_part(s, "w"@);
    if ends_with(s, "d"@) {
        assert(s.last() == "d"@.last());
    }
    if ends_with(s, "w"@) {
        assert(s.last() == "w"@.last());
    }
    assert(n * 604800 == n * 7 * 86400) by (nonlinear_arith);
}

/// What was pruned is told by the counts; a dry run lists every row that would be, and
/// says that nothing was changed.
pub proof fn law_prune_report(n: PruneResult, updated: Seq<Seq<char>>, i: int)
    requires
        n.file_count > 0,
        0 <= i < n.files@.len(),
        updated.len() == n.files@.len(),
    ensures
        prune_lines(n, false, updated).len() == 1,
        text::starts_with(
            prune_lines(n, false, updated)[0],
            "Pruned "@ + decimal(n.file_count as int) + " file record(s) and "@ + decimal(
                n.output_count as int,
            ),
        ),
        text::starts_with(
            prune_lines(n, true, updated)[0],
            "Dry run: would prune "@ + decimal(n.file_count as int),
        ),
        prune_lines(n, true, updated).len() == n.files@.len() + 4,
        contains(prune_lines(n, true, updated)[3 + i], decimal(n.files@[i].id as int)),
        contains(prune_lines(n, true, updated)[3 + i], status_word(n.files@[i].status)),
        contains(prune_lines(n, true, updated)[3 + i], updated[i]),
        n.files@[i].path@.len() <= 45 ==> contains(
            prune_lines(n, true, updated)[3 + i],
            n.files@[i].path@,
        ),
{
    let head = "Pruned "@ + decimal(n.file_count as int) + " file record(s) and "@ + decimal(
        n.output_count as int,
    );
    law_parts_are_found(Seq::empty(), head, " output record(s)."@);
    let dry = "Dry run: would prune "@ + decimal(n.file_count as int);
    let rest = " file record(s) and "@ + decimal(n.output_count as int) + " output record(s):\n"@;
    law_parts_are_found(Seq::empty(), dry, rest);
    assert(prune_lines(n, true, updated)[0] =~= dry + rest);
    let row = n.files@[i];
    let line = prune_lines(n, true, updated)[3 + i];
    assert(line == crate::prune::prune_row(row, updated[i]));
    let id = decimal(row.id as int);
    let st = status_word(row.status);
    let pa = crate::display::short_path(row.path@, 45);
    let si = match row.size {
        Some(b) => size_text(b as int),
        None => "—"@,
    };
    let s1 = "  "@ + text::pad_right(id, 6);
    let s2 = s1 + "  "@ + text::pad_right(st, 10);
    let s3 = s2 + "  "@ + text::pad_right(pa, 45);
    let s4 = s3 + "  "@ + text::pad_left(si, 9);
    let s5 = s4 + "  "@ + text::pad_right(updated[i], 19);
    assert(line == s5);
    lemma_padded(id, 6);
    lemma_padded(st, 10);
    lemma_padded(pa, 45);
    lemma_padded(updated[i], 19);
    law_contains_grows(text::pad_right(id, 6), "  "@, id);
    lemma_chain(s1, "  "@, text::pad_right(st, 10), id, st);
    lemma_chain(s2, "  "@, text::pad_right(pa, 45), id, pa);
    law_contains_grows(s2, "  "@, st);
    law_contains_grows(s2 + "  "@, text::pad_right(pa, 45), st);
    law_contains_grows(s3, "  "@, id);
    law_contains_grows(s3 + "  "@, text::pad_left(si, 9), id);
    law_contains_grows(s3, "  "@, st);
    law_contains_grows(s3 + "  "@, text::pad_left(si, 9), st);
    law_contains_grows(s3, "  "@, pa);
    law_contains_grows(s3 + "  "@, text::pad_left(si, 9), pa);
    lemma_chain(s4, "  "@, text::pad_right(updated[i], 19), id, updated[i]);
    law_contains_grows(s4, "  "@, st);
    law_contains_grows(s4 + "  "@, text::pad_right(updated[i], 19), st);
    law_contains_grows(s4, "  "@, pa);
    law_contains_grows(s4 + "  "@, text::pad_right(updated[i], 19), pa);
}

proof fn lemma_padded(s: Seq<char>, w: int)
    ensures
        contains(text::pad_right(s, w), s),
        contains(text::pad_left(s, w), s),
{
    law_contains_sum(s, text::repeat(' ', w - s.len()));
    law_contains_sum(text::repeat(' ', w - s.len()), s);
}

proof fn lemma_chain(s: Seq<char>, sep: Seq<char>, t: Seq<char>, a: Seq<char>, b: Seq<char>)
    requires
        contains(s, a),
        contains(t, b),
    ensures
        contains(s + sep + t, a),
        contains(s + sep + t, b),
{
    law_contains_grows(s, sep, a);
    law_contains_grows(s + sep, t, a);
    law_contains_grows(t, s + sep, b);
}

// ---------------------------------------------------------------- following

/// Errors rank above warnings and warnings above information; an event is shown where its
/// level is at least the one asked for, or is not known.
pub proof fn law_levels(level: Seq<char>, min: int)
    ensures
        rank("info"@) == Some(0int),
        rank("warn"@) == Some(1int),
        rank("error"@) == Some(2int),
        level != "info"@ && level != "warn"@ && level != "error"@ ==> rank(level) is None && passes(
            level,
            min,
        ),
        passes("info"@, min) <==> min <= 0,
        passes("warn"@, min) <==> min <= 1,
        passes("error"@, min) <==> min <= 2,
        colour("warn"@) == Colour::Yellow,
        colour("error"@) == Colour::BoldRed,
        level != "warn"@ && level != "error"@ ==> colour(level) == Colour::Green,
{
    reveal_strlit("info");
    reveal_strlit("warn");
    reveal_strlit("error");
    assert("info"@[0] == 'i' && "warn"@[0] == 'w' && "error"@[0] == 'e');
}

/// The line of an event shows its time in brackets first, and its level, its kind and its
/// message.
pub proof fn law_event_line(shown: Seq<char>, upper: Seq<char>, e: AuditEvent)
    ensures
        text::starts_with(event_text(shown, upper, e), "["@ + shown + "] "@),
        contains(event_text(shown, upper, e), upper),
        contains(event_text(shown, upper, e), e.kind@),
        ends_with(event_text(shown, upper, e), " | "@ + trim(e.message@)),
{
    let s0 = "["@ + shown + "] "@;
    let s1 = s0 + text::pad_right(upper, 5);
    let s2 = s1 + " "@ + text::pad_right(e.kind@, 11);
    let s3 = s2 + " | "@ + trim(e.message@);
    assert(s3 == event_text(shown, upper, e));
    lemma_padded(upper, 5);
    lemma_padded(e.kind@, 11);
    law_contains_grows(text::pad_right(upper, 5), s0, upper);
    lemma_chain(s1, " "@, text::pad_right(e.kind@, 11), upper, e.kind@);
    let tail = " | "@ + trim(e.message@);
    assert(s3 =~= s2 + tail);
    law_contains_grows(s2, tail, upper);
    law_contains_grows(s2, tail, e.kind@);
    law_parts_are_found(s2, tail, Seq::empty());
    let rest = text::pad_right(upper, 5) + " "@ + text::pad_right(e.kind@, 11) + tail;
    assert(s3 =~= s0 + rest);
    law_parts_are_found(Seq::empty(), s0, rest);
}

/// A follower gets the events of the level and the kind that it asked for, in any case of
/// letters, and all where it asked for none.
pub proof fn law_wanted(p: TailParams, e: AuditEvent)
    ensures
        p.level is None && p.kind is None ==> wants(p, e),
        p.level matches Some(l) ==> (wants(p, e) ==> lower_ascii(l@) == lower_ascii(e.level@)),
        p.kind matches Some(k) ==> (wants(p, e) ==> lower_ascii(k@) == lower_ascii(e.kind@)),
        (p.level matches Some(l) ==> lower_ascii(l@) == lower_ascii(e.level@)) && (p.kind matches Some(
            k,
        ) ==> lower_ascii(k@) == lower_ascii(e.kind@)) ==> wants(p, e),
{
}

/// The daemon answers that it lives and for how long, and of what it does not do that it
/// does not.
pub proof fn law_answers(uptime: u64, endpoint: Seq<char>)
    ensures
        health_fields(uptime).contains(("ok"@, crate::json::FieldView::Bool(true))),
        health_fields(uptime).contains(
            ("uptime_secs"@, crate::json::FieldView::Unsigned(uptime as int)),
        ),
        absent_fields(endpoint).contains(
            ("error"@, crate::json::FieldView::Text("not_implemented"@)),
        ),
{
    assert(health_fields(uptime)[0] == ("ok"@, crate::json::FieldView::Bool(true)));
    assert(health_fields(uptime)[1] == (
        "uptime_secs"@,
        crate::json::FieldView::Unsigned(uptime as int),
    ));
    assert(absent_fields(endpoint)[0] == (
        "error"@,
        crate::json::FieldView::Text("not_implemented"@),
    ));
}

// ---------------------------------------------------------------- storage

/// A column is as wide as its widest entry, and no wider.
pub proof fn law_widest(rows: Seq<StorageRow>, i: int)
    requires
        0 <= i < rows.len(),
    ensures
        lead(rows[i]) <= widest_lead(rows),
        size_text(rows[i].bytes as int).len() <= widest_size(rows),
        exists|j: int| 0 <= j < rows.len() && widest_lead(rows) == lead(#[trigger] rows[j]),
        exists|j: int|
            0 <= j < rows.len() && widest_size(rows) == size_text((#[trigger] rows[j]).bytes as int).len(),
    decreases rows.len(),
{
    let front = rows.drop_last();
    let n = rows.len() - 1;
    if front.len() == 0 {
        assert(widest_lead(front) == 0 && widest_size(front) == 0);
        assert(rows.last() == rows[0]);
        assert(widest_lead(rows) == lead(rows[0]));
        assert(widest_size(rows) == size_text(rows[0].bytes as int).len());
    } else {
        let k = if i < n {
            i
        } else {
            0
        };
        law_widest(front, k);
        assert(rows[n] == rows.last());
        assert(front[k] == rows[k]);
        let a = choose|j: int| 0 <= j < front.len() && widest_lead(front) == lead(#[trigger] front[j]);
        let b = choose|j: int|
            0 <= j < front.len() && widest_size(front) == size_text(
                (#[trigger] front[j]).bytes as int,
            ).len();
        assert(rows[a] == front[a] && rows[b] == front[b]);
        if widest_lead(rows) == lead(rows.last()) {
            assert(widest_lead(rows) == lead(rows[n]));
        } else {
            assert(widest_lead(rows) == lead(rows[a]));
        }
        if widest_size(rows) == size_text(rows.last().bytes as int).len() {
            assert(widest_size(rows) == size_text(rows[n].bytes as int).len());
        } else {
            assert(widest_size(rows) == size_text(rows[b].bytes as int).len());
        }
    }
}

proof fn lemma_storage_row(r: StorageRow, l: int, w: int)
    ensures
        text::starts_with(storage_row(r, l, w), "  "@ + r.name@ + ":"@),
        contains(storage_row(r, l, w), decimal(r.count as int) + " file"@),
        ends_with(storage_row(r, l, w), size_text(r.bytes as int)),
{
    let a = "  "@ + r.name@ + ":"@;
    let pad = text::repeat(' ', l - lead(r) + 1);
    let c = decimal(r.count as int) + " file"@;
    let pl = crate::storage::plural(r.count as int);
    let sz = size_text(r.bytes as int);
    let right = text::pad_left(sz, w);
    let whole = storage_row(r, l, w);
    assert(whole =~= a + (pad + c + pl + ", "@ + right));
    law_parts_are_found(Seq::empty(), a, pad + c + pl + ", "@ + right);
    assert(whole =~= (a + pad) + c + (pl + ", "@ + right));
    law_parts_are_found(a + pad, c, pl + ", "@ + right);
    let blanks = text::repeat(' ', w - sz.len());
    assert(whole =~= (a + pad + c + pl + ", "@ + blanks) + sz);
    law_parts_are_found(a + pad + c + pl + ", "@ + blanks, sz, Seq::empty());
}

/// The report has a line for each extension of the sources and each kind of output, with
/// its count and its size, and the totals at the end.
pub proof fn law_storage_report(s: StorageStats)
    ensures
        ({
            let ls = storage_lines(s);
            let n = if s.by_ext@.len() == 0 { 1int } else { s.by_ext@.len() as int };
            let m = if s.by_kind@.len() == 0 { 1int } else { s.by_kind@.len() as int };
            &&& ls.len() == n + m + 5
            &&& ls[0] == "Sources:"@
            &&& ls[n + 2] == "Outputs:"@
            &&& forall|i: int|
                0 <= i < s.by_ext@.len() ==> text::starts_with(
                    #[trigger] ls[1 + i],
                    "  "@ + s.by_ext@[i].name@ + ":"@,
                ) && contains(ls[1 + i], decimal(s.by_ext@[i].count as int) + " file"@) && ends_with(
                    ls[1 + i],
                    size_text(s.by_ext@[i].bytes as int),
                )
            &&& forall|i: int|
                0 <= i < s.by_kind@.len() ==> text::starts_with(
                    #[trigger] ls[n + 3 + i],
                    "  "@ + s.by_kind@[i].name@ + ":"@,
                ) && contains(ls[n + 3 + i], decimal(s.by_kind@[i].count as int) + " file"@)
                    && ends_with(ls[n + 3 + i], size_text(s.by_kind@[i].bytes as int))
            &&& contains(ls.last(), decimal(s.total_source_count as int) + " source"@)
            &&& contains(ls.last(), decimal(s.total_output_count as int) + " output"@)
            &&& contains(ls.last(), size_text(s.total_bytes as int) + " tracked"@)
        }),
{
    let ls = storage_lines(s);
    let n = if s.by_ext@.len() == 0 { 1int } else { s.by_ext@.len() as int };
    lemma_total(s);
    let l = larger(widest_lead(s.by_ext@), widest_lead(s.by_kind@));
    let w = larger(widest_size(s.by_ext@), widest_size(s.by_kind@));
    assert forall|i: int| 0 <= i < s.by_ext@.len() implies text::starts_with(
        #[trigger] ls[1 + i],
        "  "@ + s.by_ext@[i].name@ + ":"@,
    ) && contains(ls[1 + i], decimal(s.by_ext@[i].count as int) + " file"@) && ends_with(
        ls[1 + i],
        size_text(s.by_ext@[i].bytes as int),
    ) by {
        lemma_storage_row(s.by_ext@[i], l, w);
        assert(ls[1 + i] == storage_row(s.by_ext@[i], l, w));
    }
    assert forall|i: int| 0 <= i < s.by_kind@.len() implies text::starts_with(
        #[trigger] ls[n + 3 + i],
        "  "@ + s.by_kind@[i].name@ + ":"@,
    ) && contains(ls[n + 3 + i], decimal(s.by_kind@[i].count as int) + " file"@) && ends_with(
        ls[n + 3 + i],
        size_text(s.by_kind@[i].bytes as int),
    ) by {
        lemma_storage_row(s.by_kind@[i], l, w);
        assert(ls[n + 3 + i] == storage_row(s.by_kind@[i], l, w));
    }
    assert(ls.last() == total_line(s));
    lemma_total(s);
}

proof fn lemma_total(s: StorageStats)
    ensures
        contains(total_line(s), decimal(s.total_source_count as int) + " source"@),
        contains(total_line(s), decimal(s.total_output_count as int) + " output"@),
        contains(total_line(s), size_text(s.total_bytes as int) + " tracked"@),
{
    let x = decimal(s.total_source_count as int);
    let y = decimal(s.total_output_count as int);
    let z = size_text(s.total_bytes as int);
    let p = crate::storage::plural(s.total_source_count as int);
    let q = crate::storage::plural(s.total_output_count as int);
    let s1 = "Total: "@ + x + " source"@;
    let s2 = s1 + p + ", "@;
    let s3 = s2 + y + " output"@;
    let s4 = s3 + q + ", "@;
    let s5 = s4 + z + " tracked"@;
    assert(s5 == total_line(s));
    lemma_behind("Total: "@, x, " source"@);
    lemma_behind(s2, y, " output"@);
    lemma_behind(s4, z, " tracked"@);
    let a = x + " source"@;
    let b = y + " output"@;
    law_contains_grows(s1, p, a);
    law_contains_grows(s1 + p, ", "@, a);
    law_contains_grows(s2, y, a);
    law_contains_grows(s2 + y, " output"@, a);
    lemma_two_more(s3, q, a);
    lemma_two_more(s3, q, b);
    law_contains_grows(s4, z, a);
    law_contains_grows(s4 + z, " tracked"@, a);
    law_contains_grows(s4, z, b);
    law_contains_grows(s4 + z, " tracked"@, b);
}

proof fn lemma_two_more(s: Seq<char>, q: Seq<char>, a: Seq<char>)
    requires
        contains(s, a),
    ensures
        contains(s + q + ", "@, a),
{
    law_contains_grows(s, q, a);
    law_contains_grows(s + q, ", "@, a);
}

proof fn lemma_behind(front: Seq<char>, x: Seq<char>, noun: Seq<char>)
    ensures
        contains(front + x + noun, x + noun),
{
    assert(front + x + noun =~= front + (x + noun));
    law_contains_sum(front, x + noun);
}

// ---------------------------------------------------------------- rows and counts

/// A target that is no positive number is a path: from the home where it starts with a
/// tilde, as it is where it is absolute, and from the current directory otherwise.
pub proof fn law_target_path(target: Seq<char>, home: Option<Seq<char>>, cwd: Seq<char>)
    requires
        number::integer_of(target) is None || number::integer_of(target)->0 <= 0,
    ensures
        lookup_of(target, home, cwd) == LookupView::ByPath(
            ({
                let p = config::tilde(target, home);
                if p.len() > 0 && p[0] == '/' {
                    p
                } else {
                    join(cwd, p)
                }
            }),
        ),
{
}

/// A count is that of the last row of its status.
pub proof fn law_count(rows: Seq<StatusCount>, r: StatusCount, s: Status)
    ensures
        count_of(Seq::<StatusCount>::empty(), s, 0) == 0,
        r.status@ == status_word(s) ==> count_of(rows.push(r), s, rows.len() + 1) == r.count,
        r.status@ != status_word(s) ==> count_of(rows.push(r), s, rows.len() + 1) == count_of(
            rows,
            s,
            rows.len(),
        ),
{
    law_status_round_trip(s, r.status@);
    lemma_counts_pushed(rows, r, s, rows.len());
    assert(rows.push(r)[rows.len() as int] == r);
}

proof fn lemma_counts_pushed(rows: Seq<StatusCount>, r: StatusCount, s: Status, n: nat)
    requires
        n <= rows.len(),
    ensures
        count_of(rows.push(r), s, n) == count_of(rows, s, n),
    decreases n,
{
    if n > 0 {
        lemma_counts_pushed(rows, r, s, (n - 1) as nat);
        assert(rows.push(r)[n - 1] == rows[n - 1]);
    }
}

/// The age of the oldest pending row is the time since it was first seen, and never
/// negative; there is none where no row is pending.
pub proof fn law_pending_age(f: QueueFacts)
    ensures
        f.oldest_first_seen is None <==> pending_age(f) is None,
        f.oldest_first_seen matches Some(t) ==> {
            &&& f.now >= t ==> pending_age(f) == Some(f.now - t)
            &&& f.now < t ==> pending_age(f) == Some(0int)
        },
{
}

// ---------------------------------------------------------------- the daemon

/// The daemon loads its configuration before anything else, holds the lock before it
/// opens the database, recovers what a crash left before it starts any work, and starts
/// to work on jobs last; it stops in the reverse sense and gives the lock back at the end.
pub proof fn law_daemon_order()
    ensures
        following(Step::LoadConfig) == Some(Step::InitLogging),
        following(Step::InitLogging) == Some(Step::AcquireLock),
        following(Step::AcquireLock) == Some(Step::OpenStore),
        following(Step::OpenStore) == Some(Step::RecordStarted),
        following(Step::RecordStarted) == Some(Step::Recover),
        following(Step::Recover) == Some(Step::StartPipeline),
        following(Step::StartPipeline) == Some(Step::CompileGlobs),
        following(Step::CompileGlobs) == Some(Step::StartScanner),
        following(Step::StartScanner) == Some(Step::LoadSecrets),
        following(Step::LoadSecrets) == Some(Step::StartPool),
        following(Step::StartPool) == Some(Step::AwaitSignal),
        following(Step::AwaitSignal) == Some(Step::RecordStopping),
        following(Step::RecordStopping) == Some(Step::Cancel),
        following(Step::Cancel) == Some(Step::AwaitPool),
        following(Step::AwaitPool) == Some(Step::DrainJobs),
        following(Step::DrainJobs) == Some(Step::AwaitPipeline),
        following(Step::AwaitPipeline) == Some(Step::AwaitScanner),
        following(Step::AwaitScanner) == Some(Step::ResetJobs),
        following(Step::ResetJobs) == Some(Step::ReleaseLock),
        following(Step::ReleaseLock) is None,
{
}

/// The daemon does not start where its configuration, its logs, its lock, its database,
/// its recovery, its watcher, its globs or its secrets fail; nothing that fails later
/// keeps it from shutting down.
pub proof fn law_fatal_steps(s: Step)
    ensures
        fatal(s) <==> s == Step::LoadConfig || s == Step::InitLogging || s == Step::AcquireLock || s
            == Step::OpenStore || s == Step::Recover || s == Step::StartPipeline || s
            == Step::CompileGlobs || s == Step::LoadSecrets,
{
}

/// A termination and an interrupt end the daemon where they can be heard, a hangup never
/// does; of several signals the termination is taken first.
pub proof fn law_signals(interrupt: bool, terminate: bool, hangup: bool, s: Signal)
    ensures
        ({
            let p = plan_of(interrupt, terminate, hangup);
            &&& !stops(p, Signal::Hangup)
            &&& stops(p, Signal::Interrupt)
            &&& stops(p, Signal::Terminate) <==> interrupt && terminate
            &&& hears(p, Signal::Hangup) <==> interrupt && terminate && hangup
            &&& first_of(true, interrupt, hangup) == Some(Signal::Terminate)
            &&& first_of(false, true, hangup) == Some(Signal::Interrupt)
            &&& first_of(false, false, true) == Some(Signal::Hangup)
            &&& first_of(false, false, false) is None
        }),
{
}

/// A shutdown waits while jobs run and there is time, and no longer.
pub proof fn law_drain(n: i64, spent: bool)
    ensures
        drain_of(Some(0), spent) == Drain::Drained,
        n != 0 && !spent ==> drain_of(Some(n), spent) == Drain::PollAgain,
        n != 0 && spent ==> drain_of(Some(n), spent) == Drain::TimedOut(n),
        drain_of(None, spent) == Drain::Unknown,
{
}

} // verus!
