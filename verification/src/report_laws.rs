//! What is shown of a file and of a command promises: that each fact stands under its
//! own name, and that nothing is shown of another file.

use vstd::prelude::*;
use vstd::string::*;

use crate::commands::{
    bootout_lines, example_lines, path_lines, relink_agent, relink_lines, status_text,
    uninstalled_lines, RelinkArgs,
};
use crate::display;
use crate::display::age_text;
use crate::json;
use crate::json::text_view;
use crate::link_sweeper::RelinkStats;
use crate::number::decimal;
use crate::show::{
    about, are_entry_lines, box_lines, detail_lines, detail_title, each_text, entry_row,
    event_lines, event_row, fact_lines, final_lines, first, is_plan_part, is_row, list_view,
    mode_badge, names_run, next_attempt, note_members, notes_say, output_lines, output_row,
    records_run, rogue_lines, run_lines, said_lines, short_arg, AgentNotes, DetailTimes,
    EntryShown, NoteMembersView, PlanText,
};
use crate::text;
use crate::text::{byte_len, clip, contains, lines, pad_right, starts_with, trim, views};
use crate::text_laws::{law_contains_grows, law_contains_sum, law_parts_are_found};
use crate::types;
use crate::types::{AuditEvent, FileRow, OutputRecord, Stats};

verus! {

/// The first so many of a list: as many as there are, in order.
pub proof fn law_first<A>(v: Seq<A>, n: int, i: int)
    requires
        0 <= n,
    ensures
        first(v, n).len() == (if v.len() <= n {
            v.len() as int
        } else {
            n
        }),
        0 <= i < first(v, n).len() ==> first(v, n)[i] == v[i],
{
}

/// Texts are shown in order; what is no text is left out.
pub proof fn law_each_text(
    v: Seq<Option<Seq<char>>>,
    t: Seq<char>,
    show: spec_fn(Seq<char>) -> Seq<char>,
)
    ensures
        each_text(Seq::empty(), show).len() == 0,
        each_text(v.push(Some(t)), show) == each_text(v, show).push(show(t)),
        each_text(v.push(None), show) == each_text(v, show),
{
    assert(v.push(Some(t)).drop_last() =~= v);
    assert(v.push(None).drop_last() =~= v);
}

/// Only the events of a file are about it.
pub proof fn law_about(id: i64, e: AuditEvent)
    ensures
        about(id)(e) <==> (e.file_id matches Some(n) && n == id),
{
}

/// The two words for how a run wrote are spelled out; any other is shown as it is.
pub proof fn law_mode_badge(m: Seq<char>)
    ensures
        mode_badge("shadow"@) == "shadow (no vault writes)"@,
        mode_badge("apply"@) == "apply  (writes committed)"@,
        m != "shadow"@ && m != "apply"@ ==> mode_badge(m) == m,
{
    reveal_strlit("shadow");
    reveal_strlit("apply");
    assert("shadow"@.len() != "apply"@.len());
}

/// When the next attempt is due: the time, and how far off it is while it lies ahead.
pub proof fn law_next_attempt(t: i64, shown: Seq<char>, now: i64, wait: int)
    ensures
        next_attempt(None, None, now) == "—"@,
        wait > 0 && t == now + wait ==> next_attempt(Some(t), Some(shown), now) == shown + " (in "@
            + age_text(wait) + ")"@,
        t <= now ==> next_attempt(Some(t), Some(shown), now) == shown + " (overdue)"@,
{
}

/// An argument is cut behind eighty bytes, and marked where it was.
pub proof fn law_short_arg(a: Seq<char>)
    ensures
        byte_len(a) <= 80 ==> short_arg(a) == a,
        byte_len(a) > 80 ==> short_arg(a) == clip(a, 80).push('…'),
{
    reveal_strlit("…");
    assert(clip(a, 80) + "…"@ =~= clip(a, 80).push('…'));
}

/// The facts of a file, each behind its name.
pub proof fn law_facts(row: FileRow, times: DetailTimes, now: i64)
    ensures
        ({
            let f = fact_lines(row, times, now);
            &&& f.len() == 11
            &&& f[0] == " "@ + pad_right("Path:"@, 16) + row.path@
            &&& f[1] == " "@ + pad_right("Status:"@, 16) + types::status_word(row.status)
            &&& f[2] == " "@ + pad_right("Content hash:"@, 16) + (match row.content_hash {
                Some(h) => h@,
                None => "—"@,
            })
            &&& f[3] == " "@ + pad_right("Size:"@, 16) + (match row.size {
                Some(n) => display::size_text(n as int),
                None => "—"@,
            })
            &&& f[4] == " "@ + pad_right("Attempts:"@, 16) + decimal(row.attempts as int)
            &&& f[5] == " "@ + pad_right("First seen:"@, 16) + times.first_seen@
            &&& f[6] == " "@ + pad_right("Updated:"@, 16) + times.updated@
            &&& f[7] == " "@ + pad_right("Processed:"@, 16) + times.processed@
            &&& f[8] == " "@ + pad_right("Next attempt:"@, 16) + next_attempt(
                row.next_attempt_at,
                text_view(times.next_attempt),
                now,
            )
            &&& f[9] == " "@ + pad_right("Last error:"@, 16) + (match row.last_error {
                Some(e) => e@,
                None => "—"@,
            })
            &&& f[10].len() == 0
        }),
{
    reveal_strlit("");
}

/// The title names the file by its number and by the last part of its path.
pub proof fn law_title(row: FileRow)
    ensures
        starts_with(detail_title(row), "  File #"@ + decimal(row.id as int) + " — "@),
        crate::paths::file_name(row.path@) matches Some(n) ==> contains(detail_title(row), n),
        crate::paths::file_name(row.path@) is None ==> contains(detail_title(row), row.path@),
        contains(box_lines(row)[1], pad_right(detail_title(row), 70)),
{
    let head = "  File #"@ + decimal(row.id as int) + " — "@;
    let n = match crate::paths::file_name(row.path@) {
        Some(n) => n,
        None => row.path@,
    };
    let t = detail_title(row);
    assert(t == head + n);
    lemma_head(head, n);
    lemma_box_title(row);
}

proof fn lemma_box_title(row: FileRow)
    ensures
        contains(box_lines(row)[1], pad_right(detail_title(row), 70)),
{
    let l = pad_right(detail_title(row), 70);
    let b = "│"@;
    assert(box_lines(row)[1] == b + l + b);
    law_parts_are_found(b, l, b);
}

proof fn lemma_head(a: Seq<char>, b: Seq<char>)
    ensures
        starts_with(a + b, a),
        contains(a + b, b),
{
    law_parts_are_found(Seq::empty(), a, b);
    law_contains_sum(a, b);
}

/// Every output has its row, numbered from one, with its path, its kind and its size.
pub proof fn law_outputs(outputs: Seq<OutputRecord>, i: int)
    ensures
        output_lines(outputs)[0] == "  Outputs ("@ + decimal(outputs.len() as int) + "):"@,
        outputs.len() == 0 ==> output_lines(outputs).len() == 4 && output_lines(outputs)[2]
            == "  (none)"@,
        0 <= i < outputs.len() ==> {
            let l = output_lines(outputs)[i + 2];
            &&& output_lines(outputs).len() == outputs.len() + 3
            &&& starts_with(l, "  "@ + decimal(i + 1) + ". "@ + outputs[i].path@)
            &&& outputs[i].kind matches Some(k) ==> contains(l, "["@ + k@ + ", "@)
            &&& outputs[i].kind is None ==> contains(l, "[unknown, "@)
            &&& outputs[i].bytes matches Some(b) ==> contains(
                l,
                ", "@ + display::size_text(b as int) + "]"@,
            )
            &&& outputs[i].bytes is None ==> contains(l, ", ?]"@)
        },
{
    if 0 <= i < outputs.len() {
        let o = outputs[i];
        let l = output_lines(outputs)[i + 2];
        assert(l == output_row(i, o));
        let head = "  "@ + decimal(i + 1) + ". "@ + o.path@;
        let kind = match o.kind {
            Some(k) => k@,
            None => "unknown"@,
        };
        let size = match o.bytes {
            Some(b) => display::size_text(b as int),
            None => "?"@,
        };
        assert(l == head + "  ["@ + kind + ", "@ + size + "]"@);
        lemma_output_text(head, kind, size);
        lemma_unknown();
    }
}

proof fn lemma_output_text(head: Seq<char>, kind: Seq<char>, size: Seq<char>)
    ensures
        starts_with(head + "  ["@ + kind + ", "@ + size + "]"@, head),
        contains(head + "  ["@ + kind + ", "@ + size + "]"@, "["@ + kind + ", "@),
        contains(head + "  ["@ + kind + ", "@ + size + "]"@, ", "@ + size + "]"@),
{
    assert("  ["@ == "  "@ + "["@) by {
        reveal_strlit("  [");
        reveal_strlit("[");
        reveal_strlit("  ");
        assert("  ["@ =~= "  "@ + "["@);
    }
    lemma_pieces(head, "  "@, "["@, kind, ", "@, size, "]"@);
}

proof fn lemma_pieces(
    head: Seq<char>,
    b: Seq<char>,
    o: Seq<char>,
    kind: Seq<char>,
    c: Seq<char>,
    size: Seq<char>,
    z: Seq<char>,
)
    ensures
        starts_with(head + (b + o) + kind + c + size + z, head),
        contains(head + (b + o) + kind + c + size + z, o + kind + c),
        contains(head + (b + o) + kind + c + size + z, c + size + z),
{
    let l = head + (b + o) + kind + c + size + z;
    let rest = (b + o) + kind + c + size + z;
    assert(head + rest =~= l);
    let k = o + kind + c;
    assert(head + b + k + (size + z) =~= l);
    let t = c + size + z;
    assert(head + (b + o) + kind + t =~= l);
    assert(starts_with(l, head)) by {
        lemma_head(head, rest);
    }
    assert(contains(l, k)) by {
        law_parts_are_found(head + b, k, size + z);
    }
    assert(contains(l, t)) by {
        lemma_head(head + (b + o) + kind, t);
    }
}

proof fn lemma_unknown()
    ensures
        "["@ + "unknown"@ + ", "@ == "[unknown, "@,
        ", "@ + "?"@ + "]"@ == ", ?]"@,
{
    reveal_strlit("[");
    reveal_strlit("unknown");
    reveal_strlit(", ");
    reveal_strlit("[unknown, ");
    reveal_strlit(", ?]");
    reveal_strlit("?");
    reveal_strlit("]");
    assert("["@ + "unknown"@ + ", "@ =~= "[unknown, "@);
    assert(", "@ + "?"@ + "]"@ =~= ", ?]"@);
}

/// The first ten events are shown, each with its time, its level, its kind and its
/// message.
pub proof fn law_events(times: Seq<Seq<char>>, events: Seq<AuditEvent>, i: int)
    ensures
        event_lines(times, events)[0] == "  Recent events (last 10):"@,
        events.len() == 0 ==> event_lines(times, events)[2]
            == "  (no events recorded for this file)"@,
        events.len() > 0 ==> event_lines(times, events).len() == 3 + first(events, 10).len(),
        0 <= i < events.len() && i < 10 ==> event_lines(times, events)[i + 2] == "  "@ + pad_right(
            times[i],
            19,
        ) + "  "@ + pad_right(events[i].level@, 6) + "  "@ + pad_right(events[i].kind@, 18)
            + "  "@ + events[i].message@,
{
    if 0 <= i < events.len() && i < 10 {
        assert(event_lines(times, events)[i + 2] == event_row(times[i], events[i]));
    }
}

/// What is shown of a file is its title, its facts, its run, its outputs and its events,
/// in this order and each in full.
pub proof fn law_detail(
    row: FileRow,
    outputs: Seq<OutputRecord>,
    events: Seq<AuditEvent>,
    times: DetailTimes,
    now: i64,
    section: Seq<Seq<char>>,
)
    ensures
        ({
            let d = detail_lines(row, outputs, events, times, now, section);
            let s = section.len() as int;
            let o = output_lines(outputs).len() as int;
            &&& d.subrange(0, 4) == box_lines(row)
            &&& d.subrange(4, 15) == fact_lines(row, times, now)
            &&& d.subrange(15, 15 + s) == section
            &&& d.subrange(15 + s, 15 + s + o) == output_lines(outputs)
            &&& d.skip(15 + s + o) == event_lines(views(times.events@), events)
        }),
{
    lemma_box_size(row);
    law_facts(row, times, now);
    lemma_five(
        box_lines(row),
        fact_lines(row, times, now),
        section,
        output_lines(outputs),
        event_lines(views(times.events@), events),
    );
}

proof fn lemma_box_size(row: FileRow)
    ensures
        box_lines(row).len() == 4,
{
}

proof fn lemma_five<A>(a: Seq<A>, b: Seq<A>, c: Seq<A>, d: Seq<A>, e: Seq<A>)
    ensures
        ({
            let s = a + b + c + d + e;
            let n = a.len() as int;
            let m = n + b.len();
            let k = m + c.len();
            let j = k + d.len();
            &&& s.subrange(0, n) == a
            &&& s.subrange(n, m) == b
            &&& s.subrange(m, k) == c
            &&& s.subrange(k, j) == d
            &&& s.skip(j) == e
        }),
{
    let s = a + b + c + d + e;
    let n = a.len() as int;
    let m = n + b.len();
    let k = m + c.len();
    let j = k + d.len();
    assert(s.subrange(0, n) =~= a);
    assert(s.subrange(n, m) =~= b);
    assert(s.subrange(m, k) =~= c);
    assert(s.subrange(k, j) =~= d);
    assert(s.skip(j) =~= e);
}

// ---------------------------------------------------------------- the run of an agent

/// The members from which the notes on a run are read.
pub proof fn law_note_members(raw: Seq<char>)
    ensures
        note_members(raw).mode == json::json_member(raw, "agent_mode"@),
        note_members(raw).plan_file == json::json_member(raw, "plan_file"@),
        note_members(raw).summary == json::json_member(raw, "plan_summary"@),
        note_members(raw).turns == json::json_member(raw, "agent_turns"@),
        note_members(raw).elapsed == json::json_tenths(raw, "agent_elapsed_secs"@),
        note_members(raw).aborted == json::json_member(raw, "agent_aborted"@),
        note_members(raw).rogue_count == json::json_member(raw, "rogue_writes_count"@),
        note_members(raw).rogue_writes == json::json_member(raw, "rogue_writes"@),
        note_members(raw).final_text == json::json_member(raw, "agent_final_text"@),
{
}

/// A run is on record where its mode, its plan file or its summary is, and only in a
/// record that is not empty and is JSON.
pub proof fn law_records_run(raw: Seq<char>, m: NoteMembersView)
    ensures
        !records_run(None),
        raw.len() == 0 ==> !records_run(Some(raw)),
        json::json_kind(raw) is Err ==> !records_run(Some(raw)),
        raw.len() > 0 && json::json_kind(raw) is Ok ==> (records_run(Some(raw)) <==> names_run(
            note_members(raw),
        )),
        names_run(m) <==> !(json::member_text(m.mode) is None && json::member_text(m.plan_file)
            is None && json::member_text(m.summary) is None),
{
}

/// What is said of a run: each note behind its name, where there is one.
pub proof fn law_run_lines(n: AgentNotes)
    ensures
        run_lines(n)[0] == "  Agent plan:"@,
        n.mode matches Some(m) ==> run_lines(n).contains(said("Mode:"@, mode_badge(m@))),
        n.aborted ==> run_lines(n).contains(
            said("Aborted:"@, "yes (budget exhausted before completion)"@),
        ),
        n.turns matches Some(k) ==> n.elapsed matches Some(e) ==> run_lines(n).contains(
            said("LLM activity:"@, decimal(k as int) + " turns, "@ + e@ + "s"@),
        ),
        n.summary matches Some(s) ==> run_lines(n).contains(said("Summary:"@, s@)),
        n.plan_file matches Some(p) ==> run_lines(n).contains(said("Plan file:"@, p@)),
        run_lines(n).len() == 2 + one(n.mode is Some) + one(n.aborted) + one(
            n.turns is Some && n.elapsed is Some,
        ) + one(n.summary is Some) + one(n.plan_file is Some) + rogue_lines(
            n.rogue_count as int,
            list_view(n.rogue_writes),
        ).len() + final_lines(text_view(n.final_text)).len(),
{
    let h = crate::show::heading("  Agent plan:"@);
    let m = crate::show::mode_lines(n);
    let a = crate::show::aborted_lines(n);
    let l = crate::show::activity_lines(n);
    let s = crate::show::noted_if("Summary:"@, text_view(n.summary));
    let p = crate::show::noted_if("Plan file:"@, text_view(n.plan_file));
    let r = rogue_lines(n.rogue_count as int, list_view(n.rogue_writes));
    let f = final_lines(text_view(n.final_text));
    let all = run_lines(n);
    assert(all == h + m + a + l + s + p + r + f);
    assert(all[0] == h[0]);
    let x = h.len() as int;
    let y = x + m.len();
    let z = y + a.len();
    let u = z + l.len();
    let v = u + s.len();
    if n.mode is Some {
        assert(all[x] == m[0]);
    }
    if n.aborted {
        assert(all[y] == a[0]);
    }
    if n.turns is Some && n.elapsed is Some {
        assert(all[z] == l[0]);
    }
    if n.summary is Some {
        assert(all[u] == s[0]);
    }
    if n.plan_file is Some {
        assert(all[v] == p[0]);
    }
}

/// One where something is so, and none where it is not.
pub open spec fn one(b: bool) -> int {
    if b {
        1
    } else {
        0
    }
}

/// A note behind its name.
pub open spec fn said(label: Seq<char>, value: Seq<char>) -> Seq<char> {
    "  "@ + pad_right(label, 16) + "  "@ + value
}

/// Writes that went past the boundary are counted, and the first ten of them named.
pub proof fn law_rogue_lines(count: int, list: Seq<Option<Seq<char>>>, p: Seq<char>)
    ensures
        count <= 0 ==> rogue_lines(count, Some(list)).len() == 0,
        count > 0 ==> contains(
            rogue_lines(count, Some(list))[0],
            decimal(count) + " rogue write(s)"@,
        ),
        count > 0 && list.len() < 10 ==> rogue_lines(count, Some(list.push(Some(p))))
            == rogue_lines(count, Some(list)).push("    ⚠  "@ + p),
        count > 0 && list.len() >= 10 ==> rogue_lines(count, Some(list.push(Some(p))))
            == rogue_lines(count, Some(list)),
        count > 0 ==> rogue_lines(count, None).len() == 1,
{
    if count > 0 {
        let l0 = rogue_lines(count, Some(list))[0];
        reveal_strlit(" rogue write(s) (agent bypassed kb-obsidian)");
        reveal_strlit(" rogue write(s)");
        reveal_strlit(" (agent bypassed kb-obsidian)");
        assert(" rogue write(s) (agent bypassed kb-obsidian)"@ =~= " rogue write(s)"@
            + " (agent bypassed kb-obsidian)"@);
        let head = "  "@ + pad_right("Audit:"@, 16) + "  "@ + "⚠️  "@;
        let mid = decimal(count) + " rogue write(s)"@;
        law_parts_are_found(head, mid, " (agent bypassed kb-obsidian)"@);
        assert(head + mid + " (agent bypassed kb-obsidian)"@ =~= l0);
        let f = |p: Seq<char>| crate::show::rogue_path(p);
        let longer = list.push(Some(p));
        law_each_text(list, p, f);
        if list.len() < 10 {
            assert(rogue_lines(count, Some(longer)) =~= rogue_lines(count, Some(list)).push(
                "    ⚠  "@ + p,
            ));
        } else {
            assert(longer.take(10) =~= list.take(10));
            if list.len() == 10 {
                assert(list.take(10) =~= list);
            }
        }
    }
}

/// Of what the agent said at the end, the first twenty lines are shown, and how many
/// more there are.
pub proof fn law_final_lines(s: Seq<char>, i: int)
    ensures
        final_lines(None).len() == 0,
        final_lines(Some(s))[0] == "  Final summary from the agent:"@,
        0 <= i < lines(s).len() && i < 20 ==> final_lines(Some(s))[i + 1] == "    "@ + lines(s)[i],
        lines(s).len() <= 20 ==> final_lines(Some(s)).len() == 1 + lines(s).len(),
        lines(s).len() > 20 ==> final_lines(Some(s)).len() == 22 && starts_with(
            final_lines(Some(s))[21],
            "    … ("@ + decimal(lines(s).len() - 20) + " more lines"@,
        ),
{
    if lines(s).len() > 20 {
        reveal_strlit(" more lines elided; cat the plan file for full)");
        reveal_strlit(" more lines");
        let rest = " more lines elided; cat the plan file for full)"@.skip(11);
        assert(" more lines elided; cat the plan file for full)"@ =~= " more lines"@ + rest);
        let h = "    … ("@ + decimal(lines(s).len() - 20) + " more lines"@;
        law_parts_are_found(Seq::empty(), h, rest);
        assert(final_lines(Some(s))[21] =~= h + rest);
    }
}

/// The lines that say anything, without the blanks around them.
pub proof fn law_said_lines(ls: Seq<Seq<char>>, l: Seq<char>)
    ensures
        said_lines(Seq::empty()).len() == 0,
        trim(l).len() > 0 ==> said_lines(ls.push(l)) == said_lines(ls).push(trim(l)),
        trim(l).len() == 0 ==> said_lines(ls.push(l)) == said_lines(ls),
{
    assert(ls.push(l).drop_last() =~= ls);
}

/// A row of the plan: whether it was applied, its number from one, its mode, its command
/// and its arguments.
pub proof fn law_entry_row(i: int, e: EntryShown)
    ensures
        ({
            let head = "    "@ + (if e.applied {
                "✓"@
            } else {
                "·"@
            }) + " "@ + text::pad_left(decimal(i + 1), 3) + ". ["@;
            let mode = match e.mode {
                Some(m) => m@,
                None => "?"@,
            };
            let cmd = match e.cmd {
                Some(c) => c@,
                None => "?"@,
            };
            &&& starts_with(entry_row(i, e), head + mode + "] "@ + cmd + "  "@)
            &&& e.args is None ==> entry_row(i, e) == head + mode + "] "@ + cmd + "  "@
        }),
{
    let head = "    "@ + (if e.applied {
        "✓"@
    } else {
        "·"@
    }) + " "@ + text::pad_left(decimal(i + 1), 3) + ". ["@;
    let mode = match e.mode {
        Some(m) => m@,
        None => "?"@,
    };
    let cmd = match e.cmd {
        Some(c) => c@,
        None => "?"@,
    };
    let h = head + mode + "] "@ + cmd + "  "@;
    let rest = text::join(crate::show::args_shown(list_view(e.args)), "  "@);
    law_parts_are_found(Seq::empty(), h, rest);
    assert(entry_row(i, e) == h + rest);
    if e.args is None {
        assert(rest.len() == 0);
        assert(h + rest =~= h);
    }
}

/// The arguments of a row are shown in order, two blanks apart.
pub proof fn law_args_shown(v: Seq<Option<Seq<char>>>, a: Seq<char>)
    ensures
        crate::show::args_shown(None).len() == 0,
        crate::show::args_shown(Some(v.push(Some(a)))) == crate::show::args_shown(Some(v)).push(
            short_arg(a),
        ),
        crate::show::args_shown(Some(v.push(None))) == crate::show::args_shown(Some(v)),
{
    law_each_text(v, a, |a: Seq<char>| short_arg(a));
}

/// A plan without entries has no rows; of any other the first twenty have one each, in
/// order, and the rest are counted.
pub proof fn law_entry_lines(es: Seq<Seq<char>>, shown: Seq<Seq<char>>, i: int)
    requires
        are_entry_lines(es, shown),
    ensures
        es.len() == 0 <==> shown.len() == 0,
        es.len() > 0 ==> shown[0] == "  Plan entries ("@ + decimal(es.len() as int) + "):"@,
        0 <= i < es.len() && i < 20 ==> is_row(i, es[i], shown[i + 1]),
        0 < es.len() <= 20 ==> shown.len() == es.len() + 1,
        es.len() > 20 ==> shown.len() == 22 && starts_with(
            shown[21],
            "    … "@ + decimal(es.len() - 20) + " more entries"@,
        ),
{
    if es.len() > 20 {
        reveal_strlit(" more entries (read the plan file for full)");
        reveal_strlit(" more entries");
        let rest = " more entries (read the plan file for full)"@.skip(13);
        assert(" more entries (read the plan file for full)"@ =~= " more entries"@ + rest);
        let h = "    … "@ + decimal(es.len() - 20) + " more entries"@;
        law_parts_are_found(Seq::empty(), h, rest);
        assert(shown[21] =~= h + rest);
    }
}

/// A plan is shown only where the notes name its file; where that cannot be read, the
/// reason is.
pub proof fn law_plan_part(n: AgentNotes, c: String, shown: Seq<Seq<char>>)
    ensures
        n.plan_file is None ==> (is_plan_part(n, PlanText::Content(c), shown) <==> shown.len()
            == 0),
        n.plan_file is Some ==> (is_plan_part(n, PlanText::Content(c), shown) <==> are_entry_lines(
            said_lines(lines(c@)),
            shown,
        )),
        n.plan_file is Some && is_plan_part(n, PlanText::Unreadable(c), shown) ==> shown.len() == 1
            && contains(shown[0], c@),
{
    law_parts_are_found("  (plan file unreadable: "@, c@, ")"@);
}

/// What the notes say is what their members hold: a count that is absent is zero, and
/// only the word `true` marks an aborted run.
pub proof fn law_notes(n: AgentNotes, m: NoteMembersView)
    requires
        notes_say(n, m),
    ensures
        n.mode matches Some(t) ==> json::member_text(m.mode) == Some(t@),
        n.plan_file matches Some(t) ==> json::member_text(m.plan_file) == Some(t@),
        n.summary matches Some(t) ==> json::member_text(m.summary) == Some(t@),
        n.final_text matches Some(t) ==> json::member_text(m.final_text) == Some(t@),
        json::member_unsigned(m.rogue_count) is None ==> n.rogue_count == 0,
        json::member_unsigned(m.rogue_count) matches Some(k) ==> n.rogue_count == k,
        json::member_unsigned(m.turns) matches Some(k) ==> n.turns matches Some(t) && t == k,
        n.aborted <==> json::member_bool(m.aborted) == Some(true),
{
}

// ---------------------------------------------------------------- the commands

/// The status names each count, and the counts are not taken for one another.
pub proof fn law_status_text(s: Stats)
    ensures
        status_text(s) == "seen: "@ + decimal(s.seen as int) + "  queued: "@ + decimal(
            s.queued as int,
        ) + "  processing: "@ + decimal(s.processing as int) + "  done: "@ + decimal(s.done as int)
            + "  failed: "@ + decimal(s.failed as int) + "  skipped: "@ + decimal(s.skipped as int)
            + "  depth: "@ + decimal(s.queue_depth as int) + "  oldest pending: "@ + (match s
            .oldest_pending_age_secs {
            Some(a) => age_text(a as int),
            None => "—"@,
        }) + "  last error: "@ + (match s.last_error {
            Some(e) => e@,
            None => "—"@,
        }),
{
    reveal_strlit("seen: ");
    reveal_strlit("  queued: ");
    reveal_strlit("  processing: ");
    reveal_strlit("  done: ");
    reveal_strlit("  failed: ");
    reveal_strlit("  skipped: ");
    reveal_strlit("  depth: ");
    reveal_strlit("  oldest pending: ");
    reveal_strlit("oldest pending: ");
    reveal_strlit("seen");
    reveal_strlit("queued");
    reveal_strlit("processing");
    reveal_strlit("done");
    reveal_strlit("failed");
    reveal_strlit("skipped");
    reveal_strlit("depth");
    reveal_strlit("  ");
    reveal_strlit(": ");
    let (b, c) = ("  "@, ": "@);
    assert("seen: "@ =~= "seen"@ + c);
    assert("  queued: "@ =~= b + ("queued"@ + c));
    assert("  processing: "@ =~= b + ("processing"@ + c));
    assert("  done: "@ =~= b + ("done"@ + c));
    assert("  failed: "@ =~= b + ("failed"@ + c));
    assert("  skipped: "@ =~= b + ("skipped"@ + c));
    assert("  depth: "@ =~= b + ("depth"@ + c));
    assert("  oldest pending: "@ =~= b + "oldest pending: "@);
    let (n1, n2, n3, n4) = (
        decimal(s.seen as int),
        decimal(s.queued as int),
        decimal(s.processing as int),
        decimal(s.done as int),
    );
    let (n5, n6, n7) = (
        decimal(s.failed as int),
        decimal(s.skipped as int),
        decimal(s.queue_depth as int),
    );
    let p1 = "seen"@ + c + n1;
    lemma_step(p1, b, "queued"@, c, n2);
    let p2 = p1 + "  queued: "@ + n2;
    lemma_step(p2, b, "processing"@, c, n3);
    let p3 = p2 + "  processing: "@ + n3;
    lemma_step(p3, b, "done"@, c, n4);
    let p4 = p3 + "  done: "@ + n4;
    lemma_step(p4, b, "failed"@, c, n5);
    let p5 = p4 + "  failed: "@ + n5;
    lemma_step(p5, b, "skipped"@, c, n6);
    let p6 = p5 + "  skipped: "@ + n6;
    lemma_step(p6, b, "depth"@, c, n7);
    let p7 = p6 + "  depth: "@ + n7;
    assert(p7 + b + "oldest pending: "@ =~= p7 + "  oldest pending: "@);
}

proof fn lemma_step(p: Seq<char>, b: Seq<char>, name: Seq<char>, c: Seq<char>, n: Seq<char>)
    ensures
        (p + b) + (name + c + n + b) == (p + (b + (name + c)) + n) + b,
{
    assert((p + b) + (name + c + n + b) =~= (p + (b + (name + c)) + n) + b);
}

/// Where the configuration lies, and whether it will be loaded.
pub proof fn law_path_lines(path: Seq<char>)
    ensures
        path_lines(path, true) == seq![path, "  (exists — will be loaded)"@],
        path_lines(path, false)[0] == path,
        starts_with(path_lines(path, false)[1], "  (not found"@),
{
    reveal_strlit(
        "  (not found — built-in defaults will be used; create this file to override)",
    );
    reveal_strlit("  (not found");
    let t = "  (not found — built-in defaults will be used; create this file to override)"@;
    assert(t.subrange(0, 12) =~= "  (not found"@);
}

/// The agent's files are looked for where the arguments say, else where the
/// configuration does.
pub proof fn law_relink_agent(args: RelinkArgs, configured: Seq<char>)
    ensures
        args.agent_root matches Some(p) ==> relink_agent(args, configured) == p@,
        args.agent_root is None ==> relink_agent(args, configured) == configured,
{
}

/// What restoring links did: each count behind its name, and a word on a dry run only.
pub proof fn law_relink_lines(s: RelinkStats, dry_run: bool)
    ensures
        relink_lines(s, dry_run)[1] == "  files examined : "@ + decimal(s.files_examined as int),
        relink_lines(s, dry_run)[2] == "  files modified : "@ + decimal(s.files_modified as int),
        relink_lines(s, dry_run)[3] == "  links restored : "@ + decimal(s.links_restored as int),
        relink_lines(s, true) == relink_lines(s, false) + seq![
            ""@,
            "  Re-run without --dry-run to apply."@,
        ],
        relink_lines(s, false).skip(4) == example_lines(views(s.examples@)),
{
    assert(relink_lines(s, true) =~= relink_lines(s, false) + seq![
        ""@,
        "  Re-run without --dry-run to apply."@,
    ]);
    assert(relink_lines(s, false).skip(4) =~= example_lines(views(s.examples@)));
}

/// The first twenty examples are shown, in order, and the rest are counted.
pub proof fn law_example_lines(examples: Seq<Seq<char>>, i: int)
    ensures
        examples.len() == 0 ==> example_lines(examples).len() == 0,
        examples.len() > 0 ==> example_lines(examples)[0] == "  examples:"@,
        0 <= i < examples.len() && i < 20 ==> example_lines(examples)[i + 1] == "    • "@
            + examples[i],
        0 < examples.len() <= 20 ==> example_lines(examples).len() == examples.len() + 1,
        examples.len() > 20 ==> example_lines(examples).len() == 22 && example_lines(examples)[21]
            == "    … "@ + decimal(examples.len() - 20) + " more"@,
{
}

/// The service is said to be gone only where the command did not fail, and the plist
/// only where it was removed.
pub proof fn law_uninstalled(service: Seq<char>, e: Seq<char>, plist: Seq<char>)
    ensures
        bootout_lines(service, None).len() == 1,
        contains(bootout_lines(service, None)[0], "launchctl bootout "@ + service),
        contains(bootout_lines(service, Some(e))[0], e),
        contains(bootout_lines(service, Some(e))[0], "returned an error"@),
        uninstalled_lines(plist, true)[0] == "  ✓  Removed plist  : "@ + plist,
        contains(uninstalled_lines(plist, false)[0], "not found at "@ + plist),
        uninstalled_lines(plist, true).skip(1) == uninstalled_lines(plist, false).skip(1),
{
    lemma_bootout(service);
    lemma_bootout_error(e);
    lemma_not_found(plist);
    assert(uninstalled_lines(plist, true).skip(1) =~= uninstalled_lines(plist, false).skip(1));
}

proof fn lemma_bootout(service: Seq<char>)
    ensures
        contains(
            "  ✓  Booted out     : launchctl bootout "@ + service,
            "launchctl bootout "@ + service,
        ),
{
    reveal_strlit("  ✓  Booted out     : launchctl bootout ");
    reveal_strlit("launchctl bootout ");
    let a = "  ✓  Booted out     : launchctl bootout "@;
    let b = "launchctl bootout "@;
    let h = a.take(a.len() - 18);
    assert(a =~= h + b);
    lemma_tail_kept(h, b, service);
}

proof fn lemma_tail_kept(h: Seq<char>, b: Seq<char>, t: Seq<char>)
    ensures
        contains(h + b + t, b + t),
{
    let p = b + t;
    assert(h + b + t =~= h + p);
    assert(contains(h + p, p)) by {
        law_contains_sum(h, p);
    }
}

proof fn lemma_bootout_error(e: Seq<char>)
    ensures
        contains("  (launchctl bootout returned an error — "@ + e + ")"@, e),
        contains(
            "  (launchctl bootout returned an error — "@ + e + ")"@,
            "returned an error"@,
        ),
{
    reveal_strlit("  (launchctl bootout returned an error — ");
    reveal_strlit("returned an error");
    let b = "  (launchctl bootout returned an error — "@;
    law_parts_are_found(b, e, ")"@);
    assert(b.subrange(21, 38) =~= "returned an error"@);
    assert(text::occurs_at(b, "returned an error"@, 21));
    law_contains_grows(b, e, "returned an error"@);
    law_contains_grows(b + e, ")"@, "returned an error"@);
}

proof fn lemma_not_found(plist: Seq<char>)
    ensures
        contains(
            "  (Plist not found at "@ + plist + " — nothing to remove)"@,
            "not found at "@ + plist,
        ),
{
    reveal_strlit("  (Plist not found at ");
    reveal_strlit("not found at ");
    let c = "  (Plist not found at "@;
    let h = c.take(9);
    let n = "not found at "@;
    let z = " — nothing to remove)"@;
    assert(c =~= h + n);
    law_parts_are_found(h, n + plist, z);
    assert(h + (n + plist) + z =~= h + n + plist + z);
}

} // verus!
