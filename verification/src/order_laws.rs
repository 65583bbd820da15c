//! In which order things come, and which of them are taken.

use vstd::prelude::*;
use vstd::string::*;

use crate::config::executable;
use crate::display;
use crate::display::{short_path, size_text};
use crate::extractor::{in_page_order, page_name, page_places};
use crate::json;
use crate::number::decimal;
use crate::ops::{is_catch_up, wanted_of, wants, TailParams};
use crate::paths;
use crate::paths::{component_lt, components_lt, is_name};
use crate::prune::{are_update_times, prune_lines, relative, PruneResult};
use crate::show::{
    are_times, is_plan_part, is_plan_section, is_row_section, notes_are, records_run, run_lines,
    shows_line, AgentNotes, DetailTimes, EntryShown, PlanText,
};
use crate::storage::plural;
use crate::tail::{comes_before, ids_of, is_new_order, is_order_of, shows_event_time};
use crate::text::{ends_with, pad_left, pad_right, text_lt};
use crate::types;
use crate::types::{AuditEvent, FileRow};

verus! {

// ---------------------------------------------------------------- texts and paths

/// Texts are ordered by their first character that differs, and a text comes before what
/// it is the beginning of.
pub proof fn law_text_order(p: Seq<char>, x: char, a: Seq<char>, y: char, b: Seq<char>)
    ensures
        text_lt(p, p + seq![x] + a),
        !text_lt(p + seq![x] + a, p),
        x != y ==> (text_lt(p + seq![x] + a, p + seq![y] + b) <==> x < y),
    decreases p.len(),
{
    let s = p + seq![x] + a;
    let t = p + seq![y] + b;
    if p.len() == 0 {
        assert(s[0] == x);
        assert(t[0] == y);
    } else {
        let r = p.skip(1);
        law_text_order(r, x, a, y, b);
        assert(s.skip(1) =~= r + seq![x] + a);
        assert(t.skip(1) =~= r + seq![y] + b);
        assert(s[0] == p[0] && t[0] == p[0]);
    }
}

/// Paths are ordered by their first component that differs, so that a directory comes
/// before what lies in it.
pub proof fn law_path_order(
    p: Seq<Seq<char>>,
    x: Seq<char>,
    a: Seq<Seq<char>>,
    y: Seq<char>,
    b: Seq<Seq<char>>,
)
    ensures
        components_lt(p, p + seq![x] + a),
        !components_lt(p + seq![x] + a, p),
        x != y ==> (components_lt(p + seq![x] + a, p + seq![y] + b) <==> component_lt(x, y)),
        is_name(x) && is_name(y) && x != seq!['.', '.'] && y != seq!['.', '.'] ==> (component_lt(
            x,
            y,
        ) <==> text_lt(x, y)),
    decreases p.len(),
{
    let s = p + seq![x] + a;
    let t = p + seq![y] + b;
    assert(seq!['/'][0] == '/');
    assert(seq!['/'].contains('/'));
    if p.len() == 0 {
        assert(s[0] == x);
        assert(t[0] == y);
    } else {
        let r = p.skip(1);
        law_path_order(r, x, a, y, b);
        assert(s.skip(1) =~= r + seq![x] + a);
        assert(t.skip(1) =~= r + seq![y] + b);
        assert(s[0] == p[0] && t[0] == p[0]);
    }
}

// ---------------------------------------------------------------- events

/// New events are taken in the order of their numbers, each once, and none that was
/// taken before.
pub proof fn law_event_order(ids: Seq<i64>, n: int, last: int, order: Seq<usize>, k: int, l: int)
    requires
        is_order_of(ids, n, last, order),
        0 <= k < l < order.len(),
    ensures
        ids[order[k] as int] > last,
        ids[order[k] as int] <= ids[order[l] as int],
        order[k] != order[l],
        forall|i: int| 0 <= i < n && #[trigger] ids[i] > last ==> order.contains(i as usize),
{
    assert(comes_before(ids, order[k] as int, order[l] as int));
    assert forall|i: int| 0 <= i < n && #[trigger] ids[i] > last implies order.contains(
        i as usize,
    ) by {
        let m = choose|m: int| 0 <= m < order.len() && #[trigger] order[m] == i;
        assert(order[m] == i as usize);
    }
}

/// Of the events those are sent that were asked for, in the order in which they came.
pub proof fn law_wanted_events(events: Seq<AuditEvent>, order: Seq<usize>, i: usize, p: TailParams)
    ensures
        wanted_of(events, Seq::empty(), p).len() == 0,
        wants(p, events[i as int]) ==> wanted_of(events, order.push(i), p) == wanted_of(
            events,
            order,
            p,
        ).push(i),
        !wants(p, events[i as int]) ==> wanted_of(events, order.push(i), p) == wanted_of(
            events,
            order,
            p,
        ),
{
    reveal(Seq::filter);
    assert(order.push(i).drop_last() =~= order);
}

/// The time of an event that no calendar holds is its number of seconds, as wide as a
/// time is.
pub proof fn law_event_time(t: Seq<char>, unix_secs: i64)
    ensures
        !display::held_time(unix_secs) ==> (shows_event_time(t, unix_secs) <==> t == pad_right(
            decimal(unix_secs as int),
            19,
        )),
        display::held_time(unix_secs) ==> (shows_event_time(t, unix_secs) <==> display::shows_time(
            t,
            unix_secs,
        )),
{
}

// ---------------------------------------------------------------- records

/// A record that would be pruned is shown with its number, its status, its path, its size
/// and its time, in columns under their names.
pub proof fn law_prune_rows(n: PruneResult, updated: Seq<Seq<char>>, i: int)
    requires
        n.file_count > 0,
        0 <= i < n.files@.len(),
        updated.len() == n.files@.len(),
    ensures
        prune_lines(n, true, updated)[1] == "  "@ + pad_right("ID"@, 6) + "  "@ + pad_right(
            "Status"@,
            10,
        ) + "  "@ + pad_right("Path"@, 45) + "  "@ + pad_left("Size"@, 9) + "  "@ + pad_right(
            "Updated"@,
            19,
        ),
        prune_lines(n, true, updated)[3 + i] == "  "@ + pad_right(
            decimal(n.files@[i].id as int),
            6,
        ) + "  "@ + pad_right(types::status_word(n.files@[i].status), 10) + "  "@ + pad_right(
            short_path(n.files@[i].path@, 45),
            45,
        ) + "  "@ + pad_left(
            match n.files@[i].size {
                Some(b) => size_text(b as int),
                None => "—"@,
            },
            9,
        ) + "  "@ + pad_right(updated[i], 19),
        prune_lines(n, true, updated).last() == "\n(Dry run — no changes made.)"@,
{
    let head = crate::prune::prune_head(n);
    let rows = crate::prune::prune_rows(n.files@, updated);
    assert(head.len() == 3);
    assert(prune_lines(n, true, updated)[1] == head[1]);
    assert(prune_lines(n, true, updated)[3 + i] == rows[i]);
    assert(rows[i] == crate::prune::prune_row(n.files@[i], updated[i]));
}

/// A duration is what stands before its unit.
pub proof fn law_relative(body: Seq<char>, unit: Seq<char>, s: Seq<char>)
    ensures
        relative(body + unit, unit) == Some(body),
        !ends_with(s, unit) ==> relative(s, unit) is None,
{
    let t = body + unit;
    crate::text_laws::law_parts_are_found(body, unit, Seq::empty());
    assert(t.take(t.len() - unit.len()) =~= body);
}

/// The times that are shown of a file are its own.
pub proof fn law_times(t: DetailTimes, row: FileRow, events: Seq<AuditEvent>, i: int)
    requires
        are_times(t, row, events),
    ensures
        display::shows_time(t.first_seen@, row.first_seen_at),
        display::shows_time(t.updated@, row.updated_at),
        row.processed_at matches Some(s) ==> display::shows_time(t.processed@, s),
        row.processed_at is None ==> t.processed@ == "—"@,
        row.next_attempt_at matches Some(s) ==> (t.next_attempt matches Some(u)
            && display::shows_time(u@, s)),
        row.next_attempt_at is None ==> t.next_attempt is None,
        0 <= i < events.len() ==> display::shows_time(t.events@[i]@, events[i].ts),
{
    if 0 <= i < events.len() {
        assert(display::shows_time(t.events@[i]@, events[i].ts));
    }
}

/// A row of a plan shows the members of its line, each under its own name.
pub proof fn law_shown_entry(e: EntryShown, line: Seq<char>, m: Seq<char>)
    requires
        shows_line(e, line),
    ensures
        json::json_member(line, "cmd"@) == Some(json::MemberView::Text(m)) ==> json::text_view(
            e.cmd,
        ) == Some(m),
        json::json_member(line, "mode"@) == Some(json::MemberView::Text(m)) ==> json::text_view(
            e.mode,
        ) == Some(m),
        json::json_member(line, "cmd"@) is None ==> e.cmd is None,
        json::json_member(line, "mode"@) is None ==> e.mode is None,
        e.applied <==> json::json_member(line, "applied"@) == Some(json::MemberView::Bool(true)),
        json::json_member(line, "args"@) is None ==> e.args is None,
{
}

/// A file without a recorded run has no section on one; the section of any other shows
/// the notes of that run and its plan.
pub proof fn law_run_section(row: FileRow, found: PlanText, shown: Seq<Seq<char>>)
    requires
        is_row_section(row, found, shown),
    ensures
        row.processor_meta is None ==> shown.len() == 0,
        !records_run(json::text_view(row.processor_meta)) ==> shown.len() == 0,
        records_run(json::text_view(row.processor_meta)) ==> exists|n: AgentNotes,
            part: Seq<Seq<char>>|
            #![trigger notes_are(n, row.processor_meta->0@), is_plan_part(n, found, part)]
            notes_are(n, row.processor_meta->0@) && is_plan_part(n, found, part) && shown
                == run_lines(n) + part + seq![""@],
{
    if records_run(json::text_view(row.processor_meta)) {
        let n = choose|n: AgentNotes|
            notes_are(n, row.processor_meta->0@) && #[trigger] is_plan_section(
                Some(n),
                found,
                shown,
            );
        let part = choose|part: Seq<Seq<char>>| #[trigger]
            is_plan_part(n, found, part) && shown == run_lines(n) + part + seq![""@];
        assert(notes_are(n, row.processor_meta->0@) && is_plan_part(n, found, part));
    }
}

// ---------------------------------------------------------------- pages and programs

/// The pages of a document lie in its directory, each under its number, and come in the
/// order of their numbers.
pub proof fn law_page_places(work_dir: Seq<char>, numbers: Seq<usize>, i: int, j: int)
    requires
        0 <= i < j < numbers.len(),
        in_page_order(numbers),
    ensures
        page_places(work_dir, numbers).len() == numbers.len(),
        page_places(work_dir, numbers)[i] == paths::join(work_dir, page_name(numbers[i] as nat)),
        numbers[i] <= numbers[j],
{
}

/// A file can be run where its owner, its group or any other may run it.
pub proof fn law_executable(mode: u32)
    ensures
        executable(mode) <==> mode & 0o100u32 != 0 || mode & 0o010u32 != 0 || mode & 0o001u32 != 0,
{
    assert(mode & 0o111u32 != 0 <==> mode & 0o100u32 != 0 || mode & 0o010u32 != 0 || mode
        & 0o001u32 != 0) by (bit_vector);
}

/// What is sent to one who catches up is new and was asked for, and all of that is sent.
pub proof fn law_catch_up(
    events: Seq<AuditEvent>,
    last: int,
    p: TailParams,
    sent: Seq<usize>,
    k: int,
    i: int,
)
    requires
        is_catch_up(events, last, p, sent),
    ensures
        0 <= k < sent.len() ==> 0 <= sent[k] < events.len() && events[sent[k] as int].id > last
            && wants(p, events[sent[k] as int]),
        0 <= i < events.len() && events[i].id > last && wants(p, events[i]) ==> sent.contains(
            i as usize,
        ),
{
    let ids = ids_of(events);
    let order = choose|order: Seq<usize>| #[trigger]
        is_new_order(ids, last, order) && sent == wanted_of(events, order, p);
    let f = |i: usize| wants(p, events[i as int]);
    assert(sent == order.filter(f));
    if 0 <= k < sent.len() {
        order.lemma_filter_pred(f, k);
        assert(sent.contains(sent[k]));
        order.lemma_filter_contains_rev(f, sent[k]);
        let m = choose|m: int| 0 <= m < order.len() && order[m] == sent[k];
        assert(0 <= order[m] < events.len() && ids[order[m] as int] > last);
    }
    if 0 <= i < events.len() && events[i].id > last && wants(p, events[i]) {
        assert(ids[i] > last);
        let m = choose|m: int| 0 <= m < order.len() && #[trigger] order[m] == i;
        assert(order[m] == i as usize);
        order.lemma_filter_contains(f, m);
    }
}

// ---------------------------------------------------------------- wording

/// One is told as one, and any other number as several.
pub proof fn law_plural(n: int)
    ensures
        plural(1).len() == 0,
        n != 1 ==> plural(n) == "s"@,
{
    reveal_strlit("");
}

/// Where nothing matches, that is said, and whether it was tried for show.
pub proof fn law_nothing_pruned(n: PruneResult, updated: Seq<Seq<char>>)
    requires
        n.file_count == 0,
    ensures
        prune_lines(n, true, updated) == seq!["Dry run: no matching records found."@],
        prune_lines(n, false, updated) == seq!["No matching records found; nothing pruned."@],
{
}

/// The times in a prune report are those of its files, one for each and in order.
pub proof fn law_update_times(updated: Seq<Seq<char>>, files: Seq<FileRow>, i: int)
    requires
        are_update_times(updated, files),
    ensures
        updated.len() == files.len(),
        0 <= i < files.len() ==> display::shows_time(updated[i], files[i].updated_at),
{
}

} // verus!
