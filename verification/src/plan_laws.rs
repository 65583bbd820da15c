//! What a plan records and what is read out of it.

use vstd::prelude::*;
use vstd::string::*;

use crate::json;
use crate::json::MemberView;
use crate::link_sweeper::all_touched;
use crate::number::numeral;
use crate::paths::join;
use crate::plan::{
    counts, entries_said, entry_fields, entry_of_members, grouped, kind_of, line_entry, of_kind,
    path_value, ranked, summary_text, was_applied, writes_content, EntryMembersView, EntryView,
    LineFault, LineRead, PlanEntry,
};
use crate::text;
use crate::text::{starts_with, trim};
use crate::text_laws::{law_found_is_a_part, law_parts_are_found, law_split_once};

verus! {

// ---------------------------------------------------------------- kinds

/// A number by which the names of commands are told apart.
spec fn telling(s: Seq<char>) -> int {
    s.len() + 100 * (s[2] as int) + 100000 * (s[s.len() - 1] as int)
}

proof fn lemma_commands()
    ensures
        telling("create"@) == 10110106,
        telling("append"@) == 10011206,
        telling("prepend"@) == 10010107,
        telling("daily:append"@) == 10010512,
        telling("daily:prepend"@) == 10010513,
        telling("property:set"@) == 11611112,
        telling("property:remove"@) == 10111115,
        telling("move"@) == 10111804,
        telling("rename"@) == 10111006,
        telling("delete"@) == 10110806,
        telling("bookmark"@) == 10711108,
        !starts_with("create"@, "base:"@),
        !starts_with("append"@, "base:"@),
        !starts_with("prepend"@, "base:"@),
        !starts_with("daily:append"@, "base:"@),
        !starts_with("daily:prepend"@, "base:"@),
        !starts_with("property:set"@, "base:"@),
        !starts_with("property:remove"@, "base:"@),
        !starts_with("move"@, "base:"@),
        !starts_with("rename"@, "base:"@),
        !starts_with("delete"@, "base:"@),
        !starts_with("bookmark"@, "base:"@),
{
    reveal_strlit("create");
    reveal_strlit("append");
    reveal_strlit("prepend");
    reveal_strlit("daily:append");
    reveal_strlit("daily:prepend");
    reveal_strlit("property:set");
    reveal_strlit("property:remove");
    reveal_strlit("move");
    reveal_strlit("rename");
    reveal_strlit("delete");
    reveal_strlit("bookmark");
    reveal_strlit("base:");
    law_found_is_a_part("create"@, "base:"@);
    law_found_is_a_part("append"@, "base:"@);
    law_found_is_a_part("prepend"@, "base:"@);
    law_found_is_a_part("daily:append"@, "base:"@);
    law_found_is_a_part("daily:prepend"@, "base:"@);
    law_found_is_a_part("property:set"@, "base:"@);
    law_found_is_a_part("property:remove"@, "base:"@);
    law_found_is_a_part("move"@, "base:"@);
    law_found_is_a_part("rename"@, "base:"@);
    law_found_is_a_part("delete"@, "base:"@);
    law_found_is_a_part("bookmark"@, "base:"@);
    assert("base:"@[0] == 'b' && "base:"@[1] == 'a');
    if starts_with("create"@, "base:"@) {
        assert("create"@[0] == 'b' && "create"@[1] == 'a');
    }
    if starts_with("append"@, "base:"@) {
        assert("append"@[0] == 'b' && "append"@[1] == 'a');
    }
    if starts_with("prepend"@, "base:"@) {
        assert("prepend"@[0] == 'b' && "prepend"@[1] == 'a');
    }
    if starts_with("daily:append"@, "base:"@) {
        assert("daily:append"@[0] == 'b' && "daily:append"@[1] == 'a');
    }
    if starts_with("daily:prepend"@, "base:"@) {
        assert("daily:prepend"@[0] == 'b' && "daily:prepend"@[1] == 'a');
    }
    if starts_with("property:set"@, "base:"@) {
        assert("property:set"@[0] == 'b' && "property:set"@[1] == 'a');
    }
    if starts_with("property:remove"@, "base:"@) {
        assert("property:remove"@[0] == 'b' && "property:remove"@[1] == 'a');
    }
    if starts_with("move"@, "base:"@) {
        assert("move"@[0] == 'b' && "move"@[1] == 'a');
    }
    if starts_with("rename"@, "base:"@) {
        assert("rename"@[0] == 'b' && "rename"@[1] == 'a');
    }
    if starts_with("delete"@, "base:"@) {
        assert("delete"@[0] == 'b' && "delete"@[1] == 'a');
    }
    if starts_with("bookmark"@, "base:"@) {
        assert("bookmark"@[0] == 'b' && "bookmark"@[1] == 'a');
    }
}

/// Each command that changes the vault belongs to a kind: what writes at an end of a note
/// appends, what moves a note renames it, and the commands on bases go together.
pub proof fn law_kind(cmd: Seq<char>)
    ensures
        cmd == "create"@ ==> kind_of(cmd) == "create"@,
        cmd == "append"@ || cmd == "prepend"@ || cmd == "daily:append"@ || cmd == "daily:prepend"@
            ==> kind_of(cmd) == "append"@,
        cmd == "property:set"@ ==> kind_of(cmd) == "property_set"@,
        cmd == "property:remove"@ ==> kind_of(cmd) == "property_remove"@,
        cmd == "move"@ || cmd == "rename"@ ==> kind_of(cmd) == "rename"@,
        cmd == "delete"@ ==> kind_of(cmd) == "delete"@,
        cmd == "bookmark"@ ==> kind_of(cmd) == "bookmark"@,
        forall|rest: Seq<char>| cmd == #[trigger] ("base:"@ + rest) ==> kind_of(cmd) == "base"@,
        !starts_with(cmd, "base:"@) && cmd != "create"@ && cmd != "append"@ && cmd != "prepend"@ && cmd
            != "daily:append"@ && cmd != "daily:prepend"@ && cmd != "property:set"@ && cmd
            != "property:remove"@ && cmd != "move"@ && cmd != "rename"@ && cmd != "delete"@ && cmd
            != "bookmark"@ ==> kind_of(cmd) == "other"@,
{
    lemma_commands();
    assert forall|rest: Seq<char>| cmd == #[trigger] ("base:"@ + rest) implies kind_of(cmd)
        == "base"@ by {
        lemma_base(rest);
        law_parts_are_found(Seq::empty(), "base:"@, rest);
    }
}

proof fn lemma_base(rest: Seq<char>)
    ensures
        ({
            let c = "base:"@ + rest;
            c != "create"@ && c != "append"@ && c != "prepend"@ && c != "daily:append"@ && c
                != "daily:prepend"@ && c != "property:set"@ && c != "property:remove"@ && c != "move"@
                && c != "rename"@ && c != "delete"@ && c != "bookmark"@
        }),
{
    reveal_strlit("create");
    reveal_strlit("append");
    reveal_strlit("prepend");
    reveal_strlit("daily:append");
    reveal_strlit("daily:prepend");
    reveal_strlit("property:set");
    reveal_strlit("property:remove");
    reveal_strlit("move");
    reveal_strlit("rename");
    reveal_strlit("delete");
    reveal_strlit("bookmark");
    reveal_strlit("base:");
    let c = "base:"@ + rest;
    assert(c[0] == 'b' && c[1] == 'a');
}

/// A command writes new content where it creates a note or adds to one.
pub proof fn law_writes_content(cmd: Seq<char>)
    ensures
        writes_content(cmd) <==> cmd == "create"@ || cmd == "append"@ || cmd == "prepend"@,
{
}

// ---------------------------------------------------------------- paths

proof fn lemma_path_tokens(key: Seq<char>)
    requires
        key == "path"@ || key == "file"@,
    ensures
        !key.contains('='),
{
    reveal_strlit("path");
    reveal_strlit("file");
}

/// The path of an entry is the value of its first token `path=` or `file=`.
pub proof fn law_entry_path(args: Seq<Seq<char>>, from: int, i: int, key: Seq<char>, value: Seq<char>)
    requires
        0 <= from <= i < args.len(),
        key == "path"@ || key == "file"@,
        args[i] == key + seq!['='] + value,
        forall|j: int|
            from <= j < i ==> !starts_with(#[trigger] args[j], "path="@) && !starts_with(
                args[j],
                "file="@,
            ),
    ensures
        path_value(args, from) == Some(value),
    decreases i - from,
{
    lemma_path_tokens(key);
    law_split_once(key, '=', value);
    if from < i {
        lemma_no_path(args[from]);
        law_entry_path(args, from + 1, i, key, value);
    }
}

/// An entry without such a token has no path.
pub proof fn law_entry_without_path(args: Seq<Seq<char>>, from: int)
    requires
        0 <= from,
        forall|j: int|
            from <= j < args.len() ==> !starts_with(#[trigger] args[j], "path="@) && !starts_with(
                args[j],
                "file="@,
            ),
    ensures
        path_value(args, from) is None,
    decreases args.len() - from,
{
    if from < args.len() {
        lemma_no_path(args[from]);
        law_entry_without_path(args, from + 1);
    }
}

proof fn lemma_no_path(tok: Seq<char>)
    requires
        !starts_with(tok, "path="@),
        !starts_with(tok, "file="@),
    ensures
        crate::plan::path_token(tok) is None,
{
    if let Some((k, v)) = text::split_once(tok, '=') {
        text::lemma_index_of(tok, '=');
        assert(tok =~= k + seq!['='] + v);
        reveal_strlit("path");
        reveal_strlit("file");
        reveal_strlit("path=");
        reveal_strlit("file=");
        if k == "path"@ {
            assert(k + seq!['='] =~= "path="@);
            law_parts_are_found(Seq::empty(), "path="@, v);
            assert("path="@ + v =~= tok);
        }
        if k == "file"@ {
            assert(k + seq!['='] =~= "file="@);
            law_parts_are_found(Seq::empty(), "file="@, v);
            assert("file="@ + v =~= tok);
        }
    }
}

/// A file counts as touched where an entry that was applied created it or added to it;
/// entries that were only recorded, and other commands, touch none.
pub proof fn law_touched_by_entry(es: Seq<PlanEntry>, vault_root: Seq<char>, n: nat)
    requires
        n < es.len(),
    ensures
        ({
            let e = es[n as int];
            let before = all_touched(es, vault_root, n);
            let after = all_touched(es, vault_root, n + 1);
            let wrote = e.applied && (e.cmd@ == "create"@ || e.cmd@ == "append"@ || e.cmd@ == "prepend"@);
            &&& !wrote ==> after == before
            &&& wrote ==> match path_value(text::views(e.args@), 0) {
                Some(v) => after == before.push(join(vault_root, v)),
                None => after == before,
            }
        }),
{
}

// ---------------------------------------------------------------- the summary

/// The groups of a plan, largest first, are the groups: none is lost and none is added.
pub proof fn law_ranked(gs: Seq<(Seq<char>, Seq<PlanEntry>)>, most: nat)
    requires
        forall|i: int| 0 <= i < gs.len() ==> 0 < (#[trigger] gs[i]).1.len() <= most,
    ensures
        forall|i: int|
            0 <= i < gs.len() ==> ranked(gs, most).contains(#[trigger] gs[i]),
        forall|j: int|
            0 <= j < ranked(gs, most).len() ==> gs.contains(#[trigger] ranked(gs, most)[j]),
        forall|j: int, k: int|
            #![trigger ranked(gs, most)[j], ranked(gs, most)[k]]
            0 <= j < k < ranked(gs, most).len() ==> ranked(gs, most)[j].1.len() >= ranked(
                gs,
                most,
            )[k].1.len(),
{
    lemma_ranked(gs, most);
    assert forall|i: int| 0 <= i < gs.len() implies ranked(gs, most).contains(#[trigger] gs[i]) by {
        lemma_ranked_holds(gs, most, i);
    }
}

proof fn lemma_ranked_holds(gs: Seq<(Seq<char>, Seq<PlanEntry>)>, most: nat, i: int)
    requires
        0 <= i < gs.len(),
        0 < gs[i].1.len() <= most,
    ensures
        ranked(gs, most).contains(gs[i]),
    decreases most,
{
    let a = gs.filter(crate::plan::has_count(most));
    let b = ranked(gs, (most - 1) as nat);
    if gs[i].1.len() == most {
        gs.lemma_filter_contains(crate::plan::has_count(most), i);
        let k = choose|k: int| 0 <= k < a.len() && a[k] == gs[i];
        assert((a + b)[k] == gs[i]);
    } else {
        lemma_ranked_holds(gs, (most - 1) as nat, i);
        let k = choose|k: int| 0 <= k < b.len() && b[k] == gs[i];
        assert((a + b)[a.len() + k] == gs[i]);
    }
}

proof fn lemma_ranked(gs: Seq<(Seq<char>, Seq<PlanEntry>)>, most: nat)
    ensures
        forall|j: int|
            0 <= j < ranked(gs, most).len() ==> gs.contains(#[trigger] ranked(gs, most)[j]) && ranked(
                gs,
                most,
            )[j].1.len() <= most,
        forall|j: int, k: int|
            #![trigger ranked(gs, most)[j], ranked(gs, most)[k]]
            0 <= j < k < ranked(gs, most).len() ==> ranked(gs, most)[j].1.len() >= ranked(
                gs,
                most,
            )[k].1.len(),
    decreases most,
{
    if most > 0 {
        let f = crate::plan::has_count(most);
        let a = gs.filter(f);
        let b = ranked(gs, (most - 1) as nat);
        lemma_ranked(gs, (most - 1) as nat);
        assert forall|j: int| 0 <= j < (a + b).len() implies gs.contains(#[trigger] (a + b)[j]) && (a
            + b)[j].1.len() <= most && (j < a.len() ==> (a + b)[j].1.len() == most) by {
            if j < a.len() {
                gs.lemma_filter_pred(f, j);
                gs.lemma_filter_contains_rev(f, a[j]);
            } else {
                assert((a + b)[j] == b[j - a.len()]);
            }
        }
        assert forall|j: int, k: int|
            #![trigger (a + b)[j], (a + b)[k]]
            0 <= j < k < (a + b).len() implies (a + b)[j].1.len() >= (a + b)[k].1.len() by {
            if j >= a.len() {
                assert((a + b)[j] == b[j - a.len()]);
                assert((a + b)[k] == b[k - a.len()]);
            }
        }
    }
}

/// The summary tells how many entries there are and how many were applied, and of each
/// kind that occurs how many; an empty plan is told as such.
pub proof fn law_summary(es: Seq<PlanEntry>)
    ensures
        es.len() == 0 ==> summary_text(es) == "(empty plan — agent proposed no mutations)"@,
        es.len() > 0 ==> starts_with(
            summary_text(es),
            "plan("@ + numeral(es.len()) + " entries; applied="@ + numeral(
                es.filter(|e: PlanEntry| e.applied).len(),
            ) + "): "@,
        ),
{
    if es.len() > 0 {
        assert(was_applied() =~= |e: PlanEntry| e.applied);
        let head = "plan("@ + numeral(es.len()) + " entries; applied="@ + numeral(
            es.filter(|e: PlanEntry| e.applied).len(),
        ) + "): "@;
        law_parts_are_found(
            Seq::empty(),
            head,
            text::join(counts(ranked(grouped(es), es.len())), ", "@),
        );
    }
}

/// What is told of a group is its kind and how many entries it has.
pub proof fn law_group_count(gs: Seq<(Seq<char>, Seq<PlanEntry>)>, i: int)
    requires
        0 <= i < gs.len(),
    ensures
        counts(gs).len() == gs.len(),
        counts(gs)[i] == gs[i].0 + "="@ + numeral(gs[i].1.len()),
{
}

/// The entries of a kind are those whose command is of the kind.
pub proof fn law_of_kind(es: Seq<PlanEntry>, k: Seq<char>, i: int)
    requires
        0 <= i < es.len(),
    ensures
        of_kind(es, k).contains(es[i]) <==> kind_of(es[i].cmd@) == k,
{
    let f = crate::plan::is_kind(k);
    if kind_of(es[i].cmd@) == k {
        es.lemma_filter_contains(f, i);
    }
    if of_kind(es, k).contains(es[i]) {
        let j = choose|j: int| 0 <= j < of_kind(es, k).len() && of_kind(es, k)[j] == es[i];
        es.lemma_filter_pred(f, j);
    }
}

// ---------------------------------------------------------------- reading

/// An object with all that an entry needs is that entry.
pub proof fn law_whole_entry(m: EntryMembersView, ts: int, mode: Seq<char>, cmd: Seq<char>, args: Seq<Seq<char>>, applied: bool)
    requires
        m.mode == Some(MemberView::Text(mode)),
        mode == "shadow"@ || mode == "apply"@,
        m.cmd == Some(MemberView::Text(cmd)),
        m.args == Some(
            MemberView::List(Seq::new(args.len(), |i: int| Some(args[i]))),
        ),
        m.applied == Some(MemberView::Bool(applied)),
        json::member_int(m.ts) == Some(ts),
        m.exit_code is None,
    ensures
        entry_of_members(m) == Ok::<EntryView, LineFault>(
            EntryView { ts, mode, cmd, args, applied, exit_code: None },
        ),
{
    let v = Seq::new(args.len(), |i: int| Some(args[i]));
    assert(crate::plan::all_texts(v) is Some);
    assert(crate::plan::all_texts(v)->0 =~= args);
}

/// An object that lacks a member, or has one of the wrong type, or another mode, is no
/// entry.
pub proof fn law_faulty_entry(m: EntryMembersView)
    ensures
        m.ts is None || m.mode is None || m.cmd is None || m.args is None || m.applied is None
            ==> entry_of_members(m) is Err,
        json::member_int(m.ts) is None ==> entry_of_members(m) is Err,
        json::member_text(m.cmd) is None ==> entry_of_members(m) is Err,
        json::member_bool(m.applied) is None ==> entry_of_members(m) is Err,
        !(m.args matches Some(MemberView::List(_))) ==> entry_of_members(m) is Err,
        (m.mode matches Some(MemberView::Text(t)) && t != "shadow"@ && t != "apply"@)
            ==> entry_of_members(m) is Err,
{
    reveal_strlit("shadow");
    reveal_strlit("apply");
    assert("shadow"@.len() == 6 && "apply"@.len() == 5);
}

/// A line of a plan adds its entry to those before it; a blank line adds nothing, and one
/// that is faulty or cannot be read makes the plan faulty.
pub proof fn law_plan_line(lines: Seq<LineRead>, n: nat)
    requires
        n < lines.len(),
    ensures
        entries_said(lines, 0) == Some(Seq::<EntryView>::empty()),
        entries_said(lines, n) is None ==> entries_said(lines, n + 1) is None,
        lines[n as int] is Failed ==> entries_said(lines, n + 1) is None,
        lines[n as int] matches LineRead::Text(t) ==> {
            &&& trim(t@).len() == 0 ==> entries_said(lines, n + 1) == entries_said(lines, n)
            &&& trim(t@).len() > 0 && line_entry(trim(t@)) is Err ==> entries_said(lines, n + 1)
                is None
            &&& trim(t@).len() > 0 && line_entry(trim(t@)) is Ok && entries_said(lines, n) is Some
                ==> entries_said(lines, n + 1) == Some(
                (entries_said(lines, n)->0).push(line_entry(trim(t@))->Ok_0),
            )
        },
{
}

/// An entry is recorded with its time, its mode, its command, its tokens and whether it
/// was applied; with the code of the command where there is one.
pub proof fn law_recorded(e: EntryView)
    ensures
        entry_fields(e).contains(("ts"@, json::FieldView::Int(e.ts))),
        entry_fields(e).contains(("mode"@, json::FieldView::Text(e.mode))),
        entry_fields(e).contains(("cmd"@, json::FieldView::Text(e.cmd))),
        entry_fields(e).contains(("args"@, json::FieldView::Texts(e.args))),
        entry_fields(e).contains(("applied"@, json::FieldView::Bool(e.applied))),
        e.exit_code matches Some(rc) ==> entry_fields(e).contains(
            ("exit_code"@, json::FieldView::Int(rc as int)),
        ),
{
    let f = entry_fields(e);
    let n = f.len();
    assert(f[0] == ("applied"@, json::FieldView::Bool(e.applied)));
    assert(f[1] == ("args"@, json::FieldView::Texts(e.args)));
    assert(f[2] == ("cmd"@, json::FieldView::Text(e.cmd)));
    assert(f[n - 2] == ("mode"@, json::FieldView::Text(e.mode)));
    assert(f[n - 1] == ("ts"@, json::FieldView::Int(e.ts)));
    if let Some(rc) = e.exit_code {
        assert(f[3] == ("exit_code"@, json::FieldView::Int(rc as int)));
    }
}

} // verus!
