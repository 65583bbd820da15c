//! The detailed view of one source file: its row, the plan that the agent left, the
//! artifacts and the latest events.

use vstd::prelude::*;
use vstd::string::*;

use crate::display;
use crate::display::{fmt_age, fmt_bytes, fmt_ts, fmt_ts_opt};
use crate::json;
use crate::json::{kind_of_json, member_of_json, tenths_of_member, text_view, Member};
use crate::number;
use crate::number::{count_text, integer_text, unsigned_text};
use crate::paths;
use crate::paths::file_name_of;
use crate::text;
use crate::text::{add_fixed, add_line, byte_len, clip, clipped, joined, lines_of, padded_left};
use crate::text::{padded_right, repeated, trimmed, views};
use crate::types;
use crate::types::{AuditEvent, FileRow, OutputRecord};

verus! {

/// What `kb show` is asked for.
#[derive(Debug, Clone)]
pub struct ShowArgs {
    /// A path or the id of a row.
    pub target: String,
}

/// A rule across the page.
pub open spec fn rule() -> Seq<char> {
    "  "@ + text::repeat('─', 71)
}

fn rule_line() -> (r: String)
    ensures
        r@ == rule(),
{
    let mut s = String::from_str("  ");
    s.append(repeated('─', 71).as_str());
    s
}

/// A heading with a rule below it.
pub open spec fn heading(title: Seq<char>) -> Seq<Seq<char>> {
    seq![title, rule()]
}

fn add_heading(out: &mut Vec<String>, title: String)
    ensures
        views(final(out)@) == views(old(out)@) + heading(title@),
{
    let ghost before = views(out@);
    add_line(out, title);
    add_line(out, rule_line());
    assert(views(out@) =~= before + heading(title@));
}

// ---------------------------------------------------------------- the agent's plan

/// What the processor recorded of an agent's run.
#[derive(Debug, Clone)]
pub struct AgentNotes {
    pub mode: Option<String>,
    pub plan_file: Option<String>,
    pub summary: Option<String>,
    pub turns: Option<u64>,
    /// The seconds that the run took, to one decimal place.
    pub elapsed: Option<String>,
    pub aborted: bool,
    pub rogue_count: u64,
    /// The paths that were changed outside the plan; an entry that is no text is absent.
    pub rogue_writes: Option<Vec<Option<String>>>,
    pub final_text: Option<String>,
}

/// The texts of a list of members.
pub open spec fn texts_view(v: Seq<Option<String>>) -> Seq<Option<Seq<char>>> {
    Seq::new(v.len(), |i: int| text_view(v[i]))
}

/// The texts of an optional list of members.
pub open spec fn list_view(v: Option<Vec<Option<String>>>) -> Option<Seq<Option<Seq<char>>>> {
    match v {
        Some(l) => Some(texts_view(l@)),
        None => None,
    }
}

/// The elements of a member that is a list.
pub open spec fn member_list(m: Option<json::MemberView>) -> Option<Seq<Option<Seq<char>>>> {
    match m {
        Some(json::MemberView::List(v)) => Some(v),
        _ => None,
    }
}

fn list_of(m: Option<Member>) -> (r: Option<Vec<Option<String>>>)
    ensures
        list_view(r) == member_list(json::member_view(m)),
{
    match m {
        Some(Member::List(v)) => {
            assert(texts_view(v@) =~= Seq::new(v@.len(), |i: int| text_view(v@[i])));
            Some(v)
        },
        _ => None,
    }
}

fn text_said(m: Option<Member>) -> (r: Option<String>)
    ensures
        text_view(r) == json::member_text(json::member_view(m)),
{
    match m {
        Some(Member::Text(s)) => Some(s),
        _ => None,
    }
}

fn is_true(m: Option<Member>) -> (b: bool)
    ensures
        b == (json::member_bool(json::member_view(m)) == Some(true)),
{
    match m {
        Some(Member::Bool(b)) => b,
        _ => false,
    }
}

fn count_of(m: Option<Member>) -> (r: Option<u64>)
    ensures
        count_view(r) == json::member_unsigned(json::member_view(m)),
{
    match m {
        Some(Member::Number { unsigned, .. }) => unsigned,
        _ => None,
    }
}

/// An optional integer.
pub open spec fn count_view(n: Option<u64>) -> Option<int> {
    match n {
        Some(k) => Some(k as int),
        None => None,
    }
}

/// The members of metadata that record an agent's run.
#[derive(Debug, Clone)]
pub struct NoteMembers {
    pub mode: Option<Member>,
    pub plan_file: Option<Member>,
    pub summary: Option<Member>,
    pub turns: Option<Member>,
    /// The seconds that the run took, to one decimal place.
    pub elapsed: Option<String>,
    pub aborted: Option<Member>,
    pub rogue_count: Option<Member>,
    pub rogue_writes: Option<Member>,
    pub final_text: Option<Member>,
}

/// The members of metadata, over texts and integers.
pub struct NoteMembersView {
    pub mode: Option<json::MemberView>,
    pub plan_file: Option<json::MemberView>,
    pub summary: Option<json::MemberView>,
    pub turns: Option<json::MemberView>,
    pub elapsed: Option<Seq<char>>,
    pub aborted: Option<json::MemberView>,
    pub rogue_count: Option<json::MemberView>,
    pub rogue_writes: Option<json::MemberView>,
    pub final_text: Option<json::MemberView>,
}

impl View for NoteMembers {
    type V = NoteMembersView;

    open spec fn view(&self) -> NoteMembersView {
        NoteMembersView {
            mode: json::member_view(self.mode),
            plan_file: json::member_view(self.plan_file),
            summary: json::member_view(self.summary),
            turns: json::member_view(self.turns),
            elapsed: text_view(self.elapsed),
            aborted: json::member_view(self.aborted),
            rogue_count: json::member_view(self.rogue_count),
            rogue_writes: json::member_view(self.rogue_writes),
            final_text: json::member_view(self.final_text),
        }
    }
}

/// The members of the metadata `raw`.
pub open spec fn note_members(raw: Seq<char>) -> NoteMembersView {
    NoteMembersView {
        mode: json::json_member(raw, "agent_mode"@),
        plan_file: json::json_member(raw, "plan_file"@),
        summary: json::json_member(raw, "plan_summary"@),
        turns: json::json_member(raw, "agent_turns"@),
        elapsed: json::json_tenths(raw, "agent_elapsed_secs"@),
        aborted: json::json_member(raw, "agent_aborted"@),
        rogue_count: json::json_member(raw, "rogue_writes_count"@),
        rogue_writes: json::json_member(raw, "rogue_writes"@),
        final_text: json::json_member(raw, "agent_final_text"@),
    }
}

/// Whether `n` is what the members of metadata say.
pub open spec fn notes_say(n: AgentNotes, m: NoteMembersView) -> bool {
    &&& text_view(n.mode) == json::member_text(m.mode)
    &&& text_view(n.plan_file) == json::member_text(m.plan_file)
    &&& text_view(n.summary) == json::member_text(m.summary)
    &&& count_view(n.turns) == json::member_unsigned(m.turns)
    &&& text_view(n.elapsed) == m.elapsed
    &&& n.aborted == (json::member_bool(m.aborted) == Some(true))
    &&& n.rogue_count == match json::member_unsigned(m.rogue_count) {
        Some(k) => k,
        None => 0,
    }
    &&& list_view(n.rogue_writes) == member_list(m.rogue_writes)
    &&& text_view(n.final_text) == json::member_text(m.final_text)
}

/// Whether the members of metadata name a mode, a plan or a summary.
pub open spec fn names_run(m: NoteMembersView) -> bool {
    json::member_text(m.mode) is Some || json::member_text(m.plan_file) is Some
        || json::member_text(m.summary) is Some
}

/// Whether `n` is what the metadata `raw` record.
pub open spec fn notes_are(n: AgentNotes, raw: Seq<char>) -> bool {
    notes_say(n, note_members(raw))
}

/// What the members of metadata record of an agent's run, where they record one.
pub fn notes_from(m: NoteMembers) -> (r: Option<AgentNotes>)
    ensures
        r is Some <==> names_run(m@),
        r matches Some(n) ==> notes_say(n, m@),
{
    let mode = text_said(m.mode);
    let plan_file = text_said(m.plan_file);
    let summary = text_said(m.summary);
    if mode.is_none() && plan_file.is_none() && summary.is_none() {
        return None;
    }
    Some(
        AgentNotes {
            mode,
            plan_file,
            summary,
            turns: count_of(m.turns),
            elapsed: m.elapsed,
            aborted: is_true(m.aborted),
            rogue_count: match count_of(m.rogue_count) {
                Some(k) => k,
                None => 0,
            },
            rogue_writes: list_of(m.rogue_writes),
            final_text: text_said(m.final_text),
        },
    )
}

/// Whether metadata record an agent's run: they are JSON and name a mode, a plan or
/// a summary.
pub open spec fn records_run(meta: Option<Seq<char>>) -> bool {
    meta matches Some(raw) && raw.len() > 0 && json::json_kind(raw) is Ok && names_run(
        note_members(raw),
    )
}

/// What the metadata of a row record of an agent's run, where they record one.
pub fn agent_notes(meta: &Option<String>) -> (r: Option<AgentNotes>)
    ensures
        r is Some <==> records_run(text_view(*meta)),
        r matches Some(n) ==> notes_are(n, meta->0@),
{
    match meta {
        Some(raw) => {
            if raw.as_str().unicode_len() == 0 {
                return None;
            }
            if kind_of_json(raw.as_str()).is_err() {
                return None;
            }
            let raw = raw.as_str();
            let members = NoteMembers {
                mode: member_of_json(raw, "agent_mode"),
                plan_file: member_of_json(raw, "plan_file"),
                summary: member_of_json(raw, "plan_summary"),
                turns: member_of_json(raw, "agent_turns"),
                elapsed: tenths_of_member(raw, "agent_elapsed_secs"),
                aborted: member_of_json(raw, "agent_aborted"),
                rogue_count: member_of_json(raw, "rogue_writes_count"),
                rogue_writes: member_of_json(raw, "rogue_writes"),
                final_text: member_of_json(raw, "agent_final_text"),
            };
            assert(members@ == note_members(raw@));
            notes_from(members)
        },
        None => None,
    }
}

/// A value behind its label.
pub open spec fn noted(label: Seq<char>, value: Seq<char>) -> Seq<char> {
    "  "@ + text::pad_right(label, 16) + "  "@ + value
}

fn noted_line(label: &str, value: &str) -> (r: String)
    ensures
        r@ == noted(label@, value@),
{
    let mut s = String::from_str("  ");
    s.append(padded_right(label, 16).as_str());
    s.append("  ");
    s.append(value);
    s
}

/// A labelled line, where there is a value.
pub open spec fn noted_if(label: Seq<char>, value: Option<Seq<char>>) -> Seq<Seq<char>> {
    match value {
        Some(v) => seq![noted(label, v)],
        None => seq![],
    }
}

fn add_noted(out: &mut Vec<String>, label: &str, value: Option<&str>)
    ensures
        views(final(out)@) == views(old(out)@) + noted_if(
            label@,
            match value {
                Some(v) => Some(v@),
                None => None,
            },
        ),
{
    match value {
        Some(v) => {
            add_line(out, noted_line(label, v));
        },
        None => {
            assert(views(out@) =~= views(out@) + Seq::<Seq<char>>::empty());
        },
    }
}

/// How a mode is shown.
pub open spec fn mode_badge(m: Seq<char>) -> Seq<char> {
    if m == "shadow"@ {
        "shadow (no vault writes)"@
    } else if m == "apply"@ {
        "apply  (writes committed)"@
    } else {
        m
    }
}

fn mode_badge_of(m: &str) -> (r: &str)
    ensures
        r@ == mode_badge(m@),
{
    if text::same_text(m, "shadow") {
        "shadow (no vault writes)"
    } else if text::same_text(m, "apply") {
        "apply  (writes committed)"
    } else {
        m
    }
}

/// Each text of `v`, in order, as `show` writes it; what is no text is left out.
pub open spec fn each_text(v: Seq<Option<Seq<char>>>, show: spec_fn(Seq<char>) -> Seq<char>) -> Seq<
    Seq<char>,
>
    decreases v.len(),
{
    if v.len() == 0 {
        seq![]
    } else {
        match v.last() {
            Some(t) => each_text(v.drop_last(), show).push(show(t)),
            None => each_text(v.drop_last(), show),
        }
    }
}

/// The first `n` of a sequence, or all where there are fewer.
pub open spec fn first<A>(v: Seq<A>, n: int) -> Seq<A> {
    if v.len() <= n {
        v
    } else {
        v.take(n)
    }
}

/// A path that was changed outside the plan.
pub open spec fn rogue_path(p: Seq<char>) -> Seq<char> {
    "    ⚠  "@ + p
}

/// The warning about changes outside the plan, with at most ten of them.
pub open spec fn rogue_lines(count: int, list: Option<Seq<Option<Seq<char>>>>) -> Seq<Seq<char>> {
    if count > 0 {
        seq![
            noted(
                "Audit:"@,
                "⚠️  "@ + number::decimal(count)
                    + " rogue write(s) (agent bypassed kb-obsidian)"@,
            ),
        ] + match list {
            Some(v) => each_text(first(v, 10), |p: Seq<char>| rogue_path(p)),
            None => seq![],
        }
    } else {
        seq![]
    }
}

fn add_rogue(out: &mut Vec<String>, count: u64, list: &Option<Vec<Option<String>>>)
    ensures
        views(final(out)@) == views(old(out)@) + rogue_lines(count as int, list_view(*list)),
{
    let ghost before = views(out@);
    if count > 0 {
        let mut s = String::from_str("⚠️  ");
        s.append(unsigned_text(count).as_str());
        s.append(" rogue write(s) (agent bypassed kb-obsidian)");
        add_line(out, noted_line("Audit:", s.as_str()));
        let ghost head = views(out@);
        match list {
            Some(v) => {
                let n: usize = if v.len() <= 10 {
                    v.len()
                } else {
                    10
                };
                let ghost show = |p: Seq<char>| rogue_path(p);
                let ghost all = texts_view(v@);
                let ghost wanted = first(all, 10);
                let mut i: usize = 0;
                assert(wanted.take(0) =~= seq![]);
                assert(views(out@) =~= head + each_text(wanted.take(0), show));
                while i < n
                    invariant
                        i <= n <= v@.len(),
                        n == wanted.len(),
                        all == texts_view(v@),
                        wanted == first(all, 10),
                        show == (|p: Seq<char>| rogue_path(p)),
                        views(out@) == head + each_text(wanted.take(i as int), show),
                    decreases n - i,
                {
                    let ghost now = views(out@);
                    let ghost next = wanted.take(i + 1);
                    assert(next.drop_last() =~= wanted.take(i as int));
                    assert(next.last() == text_view(v@[i as int]));
                    if let Some(p) = &v[i] {
                        let mut line = String::from_str("    ⚠  ");
                        line.append(p.as_str());
                        add_line(out, line);
                        assert(views(out@) =~= head + each_text(next, show));
                    }
                    i = i + 1;
                }
                assert(wanted.take(i as int) =~= wanted);
            },
            None => {},
        }
        assert(views(out@) =~= before + rogue_lines(count as int, list_view(*list)));
    } else {
        assert(views(out@) =~= before + rogue_lines(count as int, list_view(*list)));
    }
}

/// Each of some lines, indented.
pub open spec fn indented(v: Seq<Seq<char>>) -> Seq<Seq<char>> {
    Seq::new(v.len(), |i: int| "    "@ + v[i])
}

/// The last message of the agent, at most twenty lines of it.
pub open spec fn final_lines(message: Option<Seq<char>>) -> Seq<Seq<char>> {
    match message {
        Some(s) => seq!["  Final summary from the agent:"@] + indented(first(text::lines(s), 20))
            + if text::lines(s).len() > 20 {
            seq![
                "    … ("@ + number::decimal(text::lines(s).len() - 20)
                    + " more lines elided; cat the plan file for full)"@,
            ]
        } else {
            seq![]
        },
        None => seq![],
    }
}

fn add_final(out: &mut Vec<String>, message: &Option<String>)
    ensures
        views(final(out)@) == views(old(out)@) + final_lines(text_view(*message)),
{
    let ghost before = views(out@);
    match message {
        Some(s) => {
            add_fixed(out, "  Final summary from the agent:");
            let ghost head = views(out@);
            let ls = lines_of(s.as_str());
            let ghost wanted = first(text::lines(s@), 20);
            let n: usize = if ls.len() <= 20 {
                ls.len()
            } else {
                20
            };
            let mut i: usize = 0;
            assert(views(out@) =~= head + indented(wanted.take(0)));
            while i < n
                invariant
                    i <= n <= ls@.len(),
                    n == wanted.len(),
                    views(ls@) == text::lines(s@),
                    wanted == first(text::lines(s@), 20),
                    views(out@) == head + indented(wanted.take(i as int)),
                decreases n - i,
            {
                assert(wanted[i as int] == views(ls@)[i as int]);
                let mut line = String::from_str("    ");
                line.append(ls[i].as_str());
                add_line(out, line);
                i = i + 1;
                assert(views(out@) =~= head + indented(wanted.take(i as int)));
            }
            assert(wanted.take(i as int) =~= wanted);
            assert(text::lines(s@).len() == ls@.len());
            if ls.len() > 20 {
                let mut more = String::from_str("    … (");
                more.append(count_text(ls.len() - 20).as_str());
                more.append(" more lines elided; cat the plan file for full)");
                add_line(out, more);
            }
            assert(views(out@) =~= before + final_lines(text_view(*message)));
        },
        None => {
            assert(views(out@) =~= before + final_lines(text_view(*message)));
        },
    }
}

/// What is shown of an entry of the plan.
#[derive(Debug, Clone)]
pub struct EntryShown {
    pub cmd: Option<String>,
    pub mode: Option<String>,
    pub applied: bool,
    /// The arguments; one that is no text is absent.
    pub args: Option<Vec<Option<String>>>,
}

/// An argument as it is shown: at most eighty bytes of it.
pub open spec fn short_arg(a: Seq<char>) -> Seq<char> {
    if byte_len(a) > 80 {
        clip(a, 80) + "…"@
    } else {
        a
    }
}

proof fn lemma_clip_whole(s: Seq<char>, n: int)
    requires
        n >= 0,
    ensures
        byte_len(s) <= n <==> clip(s, n).len() == s.len(),
        clip(s, n).len() <= s.len(),
    decreases s.len(),
{
    if s.len() > 0 {
        let c = s[0];
        lemma_byte_len_first(s);
        if text::width(c) <= n {
            lemma_clip_whole(s.skip(1), n - text::width(c));
        } else {
            assert(byte_len(s) >= text::width(c));
        }
    }
}

proof fn lemma_byte_len_first(s: Seq<char>)
    requires
        s.len() > 0,
    ensures
        byte_len(s) == text::width(s[0]) + byte_len(s.skip(1)),
    decreases s.len(),
{
    if s.len() == 1 {
        assert(s.drop_last() =~= Seq::<char>::empty());
        assert(s.skip(1) =~= Seq::<char>::empty());
        assert(byte_len(s.drop_last()) == 0);
        assert(byte_len(s.skip(1)) == 0);
    } else {
        lemma_byte_len_first(s.drop_last());
        assert(s.drop_last().skip(1) =~= s.skip(1).drop_last());
    }
}

fn short_arg_of(a: &str) -> (r: String)
    ensures
        r@ == short_arg(a@),
{
    let mut head = clipped(a, 80);
    proof {
        lemma_clip_whole(a@, 80);
    }
    if head.as_str().unicode_len() < a.unicode_len() {
        head.append("…");
        head
    } else {
        String::from_str(a)
    }
}

/// The arguments of an entry as they are shown.
pub open spec fn args_shown(args: Option<Seq<Option<Seq<char>>>>) -> Seq<Seq<char>> {
    match args {
        Some(v) => each_text(v, |a: Seq<char>| short_arg(a)),
        None => seq![],
    }
}

fn args_of(args: &Option<Vec<Option<String>>>) -> (r: Vec<String>)
    ensures
        views(r@) == args_shown(list_view(*args)),
{
    let mut r: Vec<String> = Vec::new();
    match args {
        Some(v) => {
            let ghost show = |a: Seq<char>| short_arg(a);
            let ghost all = texts_view(v@);
            let mut i: usize = 0;
            assert(views(r@) =~= each_text(all.take(0), show));
            while i < v.len()
                invariant
                    i <= v@.len(),
                    all == texts_view(v@),
                    show == (|a: Seq<char>| short_arg(a)),
                    views(r@) == each_text(all.take(i as int), show),
                decreases v@.len() - i,
            {
                let ghost before = views(r@);
                let ghost next = all.take(i + 1);
                assert(next.drop_last() =~= all.take(i as int));
                assert(next.last() == text_view(v@[i as int]));
                if let Some(a) = &v[i] {
                    add_line(&mut r, short_arg_of(a.as_str()));
                    assert(views(r@) =~= before.push(short_arg(a@)));
                }
                i = i + 1;
            }
            assert(all.take(i as int) =~= all);
            r
        },
        None => {
            assert(views(r@) =~= args_shown(list_view(*args)));
            r
        },
    }
}

/// A text, or a question mark where it is absent.
pub open spec fn or_unknown(t: Option<Seq<char>>) -> Seq<char> {
    match t {
        Some(s) => s,
        None => "?"@,
    }
}

fn or_unknown_of(t: &Option<String>) -> (r: &str)
    ensures
        r@ == or_unknown(text_view(*t)),
{
    match t {
        Some(s) => s.as_str(),
        None => "?",
    }
}

/// The line of the entry with index `i`.
pub open spec fn entry_row(i: int, e: EntryShown) -> Seq<char> {
    "    "@ + (if e.applied {
        "✓"@
    } else {
        "·"@
    }) + " "@ + text::pad_left(number::decimal(i + 1), 3) + ". ["@ + or_unknown(text_view(e.mode))
        + "] "@ + or_unknown(text_view(e.cmd)) + "  "@ + text::join(
        args_shown(list_view(e.args)),
        "  "@,
    )
}

/// The line of the entry with index `i`.
pub fn entry_line(i: usize, e: &EntryShown) -> (r: String)
    requires
        i < usize::MAX,
    ensures
        r@ == entry_row(i as int, *e),
{
    let mut s = String::from_str("    ");
    if e.applied {
        s.append("✓");
    } else {
        s.append("·");
    }
    s.append(" ");
    s.append(padded_left(count_text(i + 1).as_str(), 3).as_str());
    s.append(". [");
    s.append(or_unknown_of(&e.mode));
    s.append("] ");
    s.append(or_unknown_of(&e.cmd));
    s.append("  ");
    s.append(joined(&args_of(&e.args), "  ").as_str());
    s
}

/// Whether `e` is what is shown of the members of a plan line.
pub open spec fn shows_members(
    e: EntryShown,
    cmd: Option<json::MemberView>,
    mode: Option<json::MemberView>,
    applied: Option<json::MemberView>,
    args: Option<json::MemberView>,
) -> bool {
    &&& text_view(e.cmd) == json::member_text(cmd)
    &&& text_view(e.mode) == json::member_text(mode)
    &&& e.applied == (json::member_bool(applied) == Some(true))
    &&& list_view(e.args) == member_list(args)
}

/// Whether `e` is what is shown of the JSON text `line`.
pub open spec fn shows_line(e: EntryShown, line: Seq<char>) -> bool {
    shows_members(
        e,
        json::json_member(line, "cmd"@),
        json::json_member(line, "mode"@),
        json::json_member(line, "applied"@),
        json::json_member(line, "args"@),
    )
}

/// What is shown of the members of a plan line.
pub fn shown_from(
    cmd: Option<Member>,
    mode: Option<Member>,
    applied: Option<Member>,
    args: Option<Member>,
) -> (e: EntryShown)
    ensures
        shows_members(
            e,
            json::member_view(cmd),
            json::member_view(mode),
            json::member_view(applied),
            json::member_view(args),
        ),
{
    EntryShown {
        cmd: text_said(cmd),
        mode: text_said(mode),
        applied: is_true(applied),
        args: list_of(args),
    }
}

/// Whether `row` is the line of the plan line `line` with index `i`.
pub open spec fn is_row(i: int, line: Seq<char>, row: Seq<char>) -> bool {
    match json::json_kind(line) {
        Ok(_) => exists|e: EntryShown| shows_line(e, line) && row == #[trigger] entry_row(i, e),
        Err(_) => row == "    · "@ + text::pad_left(number::decimal(i + 1), 3)
            + ". (unparseable line: "@ + line + ")"@,
    }
}

fn row_of(i: usize, line: &str) -> (r: String)
    requires
        i < usize::MAX,
    ensures
        is_row(i as int, line@, r@),
{
    if kind_of_json(line).is_ok() {
        let e = shown_from(
            member_of_json(line, "cmd"),
            member_of_json(line, "mode"),
            member_of_json(line, "applied"),
            member_of_json(line, "args"),
        );
        assert(shows_line(e, line@));
        entry_line(i, &e)
    } else {
        let mut s = String::from_str("    · ");
        s.append(padded_left(count_text(i + 1).as_str(), 3).as_str());
        s.append(". (unparseable line: ");
        s.append(line);
        s.append(")");
        s
    }
}

/// The lines of a plan that say something, trimmed.
pub open spec fn said_lines(ls: Seq<Seq<char>>) -> Seq<Seq<char>>
    decreases ls.len(),
{
    if ls.len() == 0 {
        seq![]
    } else {
        let t = text::trim(ls.last());
        if t.len() > 0 {
            said_lines(ls.drop_last()).push(t)
        } else {
            said_lines(ls.drop_last())
        }
    }
}

fn said_lines_of(content: &str) -> (r: Vec<String>)
    ensures
        views(r@) == said_lines(text::lines(content@)),
{
    let ls = lines_of(content);
    let ghost all = text::lines(content@);
    let mut r: Vec<String> = Vec::new();
    let mut i: usize = 0;
    assert(views(r@) =~= said_lines(all.take(0)));
    while i < ls.len()
        invariant
            i <= ls@.len(),
            views(ls@) == all,
            views(r@) == said_lines(all.take(i as int)),
        decreases ls@.len() - i,
    {
        let ghost before = views(r@);
        let ghost next = all.take(i + 1);
        assert(next.drop_last() =~= all.take(i as int));
        assert(next.last() == views(ls@)[i as int]);
        let t = trimmed(ls[i].as_str());
        if t.unicode_len() > 0 {
            add_line(&mut r, String::from_str(t));
            assert(views(r@) =~= before.push(t@));
        }
        i = i + 1;
    }
    assert(views(ls@).len() == ls@.len());
    assert(all.take(i as int) =~= all);
    r
}

/// Whether `shown` is the part on the entries of a plan: how many there are, the first
/// twenty, and how many more.
pub open spec fn are_entry_lines(es: Seq<Seq<char>>, shown: Seq<Seq<char>>) -> bool {
    let n = first(es, 20).len() as int;
    if es.len() == 0 {
        shown.len() == 0
    } else {
        &&& shown.len() == 1 + n + (if es.len() > 20 {
            1int
        } else {
            0
        })
        &&& shown[0] == "  Plan entries ("@ + number::decimal(es.len() as int) + "):"@
        &&& forall|i: int| 0 <= i < n ==> is_row(i, #[trigger] es[i], shown[i + 1])
        &&& es.len() > 20 ==> shown[n + 1] == "    … "@ + number::decimal(es.len() - 20)
            + " more entries (read the plan file for full)"@
    }
}

fn entry_lines(es: &Vec<String>) -> (r: Vec<String>)
    ensures
        are_entry_lines(views(es@), views(r@)),
{
    let mut r: Vec<String> = Vec::new();
    let ghost all = views(es@);
    if es.len() == 0 {
        return r;
    }
    let mut head = String::from_str("  Plan entries (");
    head.append(count_text(es.len()).as_str());
    head.append("):");
    r.push(head);
    let n: usize = if es.len() <= 20 {
        es.len()
    } else {
        20
    };
    let mut i: usize = 0;
    while i < n
        invariant
            i <= n <= es@.len(),
            n <= 20,
            all == views(es@),
            r@.len() == i + 1,
            r@[0]@ == head@,
            forall|j: int| 0 <= j < i ==> is_row(j, #[trigger] all[j], r@[j + 1]@),
        decreases n - i,
    {
        let row = row_of(i, es[i].as_str());
        assert(is_row(i as int, all[i as int], row@));
        r.push(row);
        i = i + 1;
    }
    if es.len() > 20 {
        let mut more = String::from_str("    … ");
        more.append(count_text(es.len() - 20).as_str());
        more.append(" more entries (read the plan file for full)");
        r.push(more);
    }
    assert forall|j: int| 0 <= j < n implies is_row(j, #[trigger] all[j], views(r@)[j + 1]) by {
        assert(is_row(j, all[j], r@[j + 1]@));
    }
    assert(views(r@)[0] == head@);
    r
}

/// A plan file as it was found: its text, or why it could not be read.
#[derive(Debug, Clone)]
pub enum PlanText {
    Content(String),
    Unreadable(String),
}

/// The line on the mode of a run.
pub open spec fn mode_lines(n: AgentNotes) -> Seq<Seq<char>> {
    noted_if(
        "Mode:"@,
        match n.mode {
            Some(m) => Some(mode_badge(m@)),
            None => None,
        },
    )
}

/// The line on a run that was stopped early.
pub open spec fn aborted_lines(n: AgentNotes) -> Seq<Seq<char>> {
    if n.aborted {
        seq![noted("Aborted:"@, "yes (budget exhausted before completion)"@)]
    } else {
        seq![]
    }
}

/// The line on how long a run took, where both numbers are known.
pub open spec fn activity_lines(n: AgentNotes) -> Seq<Seq<char>> {
    noted_if(
        "LLM activity:"@,
        if n.turns is Some && n.elapsed is Some {
            Some(number::decimal(n.turns->0 as int) + " turns, "@ + n.elapsed->0@ + "s"@)
        } else {
            None
        },
    )
}

/// The lines on a run that come before the entries of its plan.
pub open spec fn run_lines(n: AgentNotes) -> Seq<Seq<char>> {
    heading("  Agent plan:"@) + mode_lines(n) + aborted_lines(n) + activity_lines(n) + noted_if(
        "Summary:"@,
        text_view(n.summary),
    ) + noted_if("Plan file:"@, text_view(n.plan_file)) + rogue_lines(
        n.rogue_count as int,
        list_view(n.rogue_writes),
    ) + final_lines(text_view(n.final_text))
}

fn text_of(t: &Option<String>) -> (r: Option<&str>)
    ensures
        match r {
            Some(s) => text_view(*t) == Some(s@),
            None => text_view(*t) is None,
        },
{
    match t {
        Some(s) => Some(s.as_str()),
        None => None,
    }
}

fn add_run(out: &mut Vec<String>, n: &AgentNotes)
    ensures
        views(final(out)@) == views(old(out)@) + run_lines(*n),
{
    let ghost before = views(out@);
    add_heading(out, String::from_str("  Agent plan:"));
    let ghost mut said = heading("  Agent plan:"@);
    match &n.mode {
        Some(m) => {
            add_noted(out, "Mode:", Some(mode_badge_of(m.as_str())));
        },
        None => {
            add_noted(out, "Mode:", None);
        },
    }
    proof {
        let part = mode_lines(*n);
        text::lemma_grow(before, said, part);
        said = said + part;
    }
    if n.aborted {
        add_line(out, noted_line("Aborted:", "yes (budget exhausted before completion)"));
    }
    proof {
        let part = aborted_lines(*n);
        text::lemma_grow(before, said, part);
        said = said + part;
    }
    match (&n.turns, &n.elapsed) {
        (Some(t), Some(e)) => {
            let mut s = unsigned_text(*t);
            s.append(" turns, ");
            s.append(e.as_str());
            s.append("s");
            add_noted(out, "LLM activity:", Some(s.as_str()));
        },
        _ => {
            add_noted(out, "LLM activity:", None);
        },
    }
    proof {
        let part = activity_lines(*n);
        text::lemma_grow(before, said, part);
        said = said + part;
    }
    add_noted(out, "Summary:", text_of(&n.summary));
    proof {
        let part = noted_if("Summary:"@, text_view(n.summary));
        text::lemma_grow(before, said, part);
        said = said + part;
    }
    add_noted(out, "Plan file:", text_of(&n.plan_file));
    proof {
        let part = noted_if("Plan file:"@, text_view(n.plan_file));
        text::lemma_grow(before, said, part);
        said = said + part;
    }
    add_rogue(out, n.rogue_count, &n.rogue_writes);
    proof {
        let part = rogue_lines(n.rogue_count as int, list_view(n.rogue_writes));
        text::lemma_grow(before, said, part);
        said = said + part;
    }
    add_final(out, &n.final_text);
    proof {
        text::lemma_grow(before, said, final_lines(text_view(n.final_text)));
    }
}

/// Whether `shown` is the part on the plan file of a run.
pub open spec fn is_plan_part(n: AgentNotes, found: PlanText, shown: Seq<Seq<char>>) -> bool {
    if n.plan_file is Some {
        match found {
            PlanText::Content(c) => are_entry_lines(said_lines(text::lines(c@)), shown),
            PlanText::Unreadable(e) => shown == seq!["  (plan file unreadable: "@ + e@ + ")"@],
        }
    } else {
        shown.len() == 0
    }
}

/// Whether `shown` is the section on an agent's run.
pub open spec fn is_plan_section(
    notes: Option<AgentNotes>,
    found: PlanText,
    shown: Seq<Seq<char>>,
) -> bool {
    match notes {
        Some(n) => exists|part: Seq<Seq<char>>| #[trigger]
            is_plan_part(n, found, part) && shown == run_lines(n) + part + seq![""@],
        None => shown.len() == 0,
    }
}

/// The section on an agent's run: nothing where the row records none.
pub fn plan_section(notes: &Option<AgentNotes>, found: &PlanText) -> (r: Vec<String>)
    ensures
        is_plan_section(*notes, *found, views(r@)),
{
    let mut out: Vec<String> = Vec::new();
    match notes {
        Some(n) => {
            add_run(&mut out, n);
            assert(views(out@) =~= run_lines(*n));
            let mut part: Vec<String> = Vec::new();
            if n.plan_file.is_some() {
                match found {
                    PlanText::Content(c) => {
                        let es = said_lines_of(c.as_str());
                        part = entry_lines(&es);
                    },
                    PlanText::Unreadable(e) => {
                        let mut s = String::from_str("  (plan file unreadable: ");
                        s.append(e.as_str());
                        s.append(")");
                        add_line(&mut part, s);
                        assert(views(part@) =~= seq!["  (plan file unreadable: "@ + e@ + ")"@]);
                    },
                }
            }
            let ghost ps = views(part@);
            assert(is_plan_part(*n, *found, ps));
            let ghost head = views(out@);
            out.append(&mut part);
            assert(views(out@) =~= head + ps);
            add_fixed(&mut out, "");
            out
        },
        None => out,
    }
}

/// The section on the agent's run that the metadata of a row record.
pub fn print_agent_plan_section(meta: &Option<String>, found: &PlanText) -> (r: Vec<String>)
    ensures
        records_run(text_view(*meta)) ==> exists|n: AgentNotes|
            notes_are(n, meta->0@) && #[trigger] is_plan_section(Some(n), *found, views(r@)),
        !records_run(text_view(*meta)) ==> r@.len() == 0,
{
    let notes = agent_notes(meta);
    let r = plan_section(&notes, found);
    proof {
        if let Some(n) = notes {
            assert(is_plan_section(Some(n), *found, views(r@)));
        } else {
            assert(views(r@).len() == 0);
        }
    }
    r
}

// ---------------------------------------------------------------- the file

/// The times that the view of a file shows, each as a text.
#[derive(Debug, Clone)]
pub struct DetailTimes {
    pub first_seen: String,
    pub updated: String,
    pub processed: String,
    /// When the next attempt is due, where one is.
    pub next_attempt: Option<String>,
    /// One for each of the events that are shown.
    pub events: Vec<String>,
}

/// Whether `t` shows an optional time.
pub open spec fn shows_optional(t: Seq<char>, unix_secs: Option<i64>) -> bool {
    match unix_secs {
        Some(s) => display::shows_time(t, s),
        None => t == "—"@,
    }
}

/// Whether `t` are the times of a row and its events.
pub open spec fn are_times(t: DetailTimes, row: FileRow, events: Seq<AuditEvent>) -> bool {
    &&& display::shows_time(t.first_seen@, row.first_seen_at)
    &&& display::shows_time(t.updated@, row.updated_at)
    &&& shows_optional(t.processed@, row.processed_at)
    &&& t.next_attempt is Some <==> row.next_attempt_at is Some
    &&& row.next_attempt_at matches Some(s) ==> display::shows_time(t.next_attempt->0@, s)
    &&& t.events@.len() == events.len()
    &&& forall|i: int|
        0 <= i < events.len() ==> display::shows_time(#[trigger] t.events@[i]@, events[i].ts)
}

/// The title of the view.
pub open spec fn detail_title(row: FileRow) -> Seq<char> {
    "  File #"@ + number::decimal(row.id as int) + " — "@ + match paths::file_name(row.path@) {
        Some(n) => n,
        None => row.path@,
    }
}

/// The title in its box.
pub open spec fn box_lines(row: FileRow) -> Seq<Seq<char>> {
    seq![
        "┌"@ + text::repeat('─', 70) + "┐"@,
        "│"@ + text::pad_right(detail_title(row), 70) + "│"@,
        "└"@ + text::repeat('─', 70) + "┘"@,
        ""@,
    ]
}

fn add_box(out: &mut Vec<String>, row: &FileRow)
    ensures
        views(final(out)@) == views(old(out)@) + box_lines(*row),
{
    let ghost before = views(out@);
    let bar = repeated('─', 70);
    let mut top = String::from_str("┌");
    top.append(bar.as_str());
    top.append("┐");
    let mut title = String::from_str("  File #");
    title.append(integer_text(row.id).as_str());
    title.append(" — ");
    match file_name_of(row.path.as_str()) {
        Some(n) => {
            title.append(n.as_str());
        },
        None => {
            title.append(row.path.as_str());
        },
    }
    assert(title@ == detail_title(*row));
    let mut middle = String::from_str("│");
    middle.append(padded_right(title.as_str(), 70).as_str());
    middle.append("│");
    let mut bottom = String::from_str("└");
    bottom.append(bar.as_str());
    bottom.append("┘");
    add_line(out, top);
    add_line(out, middle);
    add_line(out, bottom);
    add_fixed(out, "");
    assert(views(out@) =~= before + box_lines(*row));
}

/// A fact behind its label.
pub open spec fn fact(label: Seq<char>, value: Seq<char>) -> Seq<char> {
    " "@ + text::pad_right(label, 16) + value
}

fn fact_line(label: &str, value: &str) -> (r: String)
    ensures
        r@ == fact(label@, value@),
{
    let mut s = String::from_str(" ");
    s.append(padded_right(label, 16).as_str());
    s.append(value);
    s
}

/// A text, or a dash where it is absent.
pub open spec fn or_dash(t: Option<Seq<char>>) -> Seq<char> {
    match t {
        Some(s) => s,
        None => "—"@,
    }
}

fn or_dash_of(t: &Option<String>) -> (r: &str)
    ensures
        r@ == or_dash(text_view(*t)),
{
    match t {
        Some(s) => s.as_str(),
        None => "—",
    }
}

/// A size, or `unknown` where there is none.
pub open spec fn size_or(size: Option<i64>, unknown: Seq<char>) -> Seq<char> {
    match size {
        Some(b) => display::size_text(b as int),
        None => unknown,
    }
}

fn size_or_of(size: Option<i64>, unknown: &str) -> (r: String)
    ensures
        r@ == size_or(size, unknown@),
{
    match size {
        Some(b) => fmt_bytes(b),
        None => String::from_str(unknown),
    }
}

/// When the next attempt is due.
pub open spec fn next_attempt(at: Option<i64>, shown: Option<Seq<char>>, now: i64) -> Seq<char> {
    match at {
        Some(t) => if t - now > 0 {
            shown->0 + " (in "@ + display::age_text(t - now) + ")"@
        } else {
            shown->0 + " (overdue)"@
        },
        None => "—"@,
    }
}

/// Whether the time until the next attempt can be computed.
pub open spec fn wait_fits(row: FileRow, now: i64) -> bool {
    row.next_attempt_at matches Some(t) ==> i64::MIN <= t - now <= i64::MAX
}

/// The facts about a file.
pub open spec fn fact_lines(row: FileRow, times: DetailTimes, now: i64) -> Seq<Seq<char>> {
    seq![
        fact("Path:"@, row.path@),
        fact("Status:"@, types::status_word(row.status)),
        fact("Content hash:"@, or_dash(text_view(row.content_hash))),
        fact("Size:"@, size_or(row.size, "—"@)),
        fact("Attempts:"@, number::decimal(row.attempts as int)),
        fact("First seen:"@, times.first_seen@),
        fact("Updated:"@, times.updated@),
        fact("Processed:"@, times.processed@),
        fact("Next attempt:"@, next_attempt(row.next_attempt_at, text_view(times.next_attempt), now)),
        fact("Last error:"@, or_dash(text_view(row.last_error))),
        ""@,
    ]
}

fn next_attempt_of(row: &FileRow, times: &DetailTimes, now: i64) -> (r: String)
    requires
        wait_fits(*row, now),
        times.next_attempt is Some <==> row.next_attempt_at is Some,
    ensures
        r@ == next_attempt(row.next_attempt_at, text_view(times.next_attempt), now),
{
    match (row.next_attempt_at, &times.next_attempt) {
        (Some(t), Some(shown)) => {
            let wait: i64 = t - now;
            let mut s = String::from_str(shown.as_str());
            if wait > 0 {
                s.append(" (in ");
                s.append(fmt_age(wait).as_str());
                s.append(")");
            } else {
                s.append(" (overdue)");
            }
            s
        },
        _ => String::from_str("—"),
    }
}

fn add_facts(out: &mut Vec<String>, row: &FileRow, times: &DetailTimes, now: i64)
    requires
        wait_fits(*row, now),
        times.next_attempt is Some <==> row.next_attempt_at is Some,
    ensures
        views(final(out)@) == views(old(out)@) + fact_lines(*row, *times, now),
{
    let ghost before = views(out@);
    let size = size_or_of(row.size, "—");
    let attempts = integer_text(row.attempts as i64);
    let next = next_attempt_of(row, times, now);
    add_line(out, fact_line("Path:", row.path.as_str()));
    add_line(out, fact_line("Status:", row.status.as_str()));
    add_line(out, fact_line("Content hash:", or_dash_of(&row.content_hash)));
    add_line(out, fact_line("Size:", size.as_str()));
    add_line(out, fact_line("Attempts:", attempts.as_str()));
    let ghost half = views(out@);
    assert(half =~= before + fact_lines(*row, *times, now).take(5));
    add_line(out, fact_line("First seen:", times.first_seen.as_str()));
    add_line(out, fact_line("Updated:", times.updated.as_str()));
    add_line(out, fact_line("Processed:", times.processed.as_str()));
    add_line(out, fact_line("Next attempt:", next.as_str()));
    add_line(out, fact_line("Last error:", or_dash_of(&row.last_error)));
    add_fixed(out, "");
    assert(views(out@) =~= half + fact_lines(*row, *times, now).skip(5));
    assert(views(out@) =~= before + fact_lines(*row, *times, now));
}

/// The line of the artifact with index `i`.
pub open spec fn output_row(i: int, o: OutputRecord) -> Seq<char> {
    "  "@ + number::decimal(i + 1) + ". "@ + o.path@ + "  ["@ + (match o.kind {
        Some(k) => k@,
        None => "unknown"@,
    }) + ", "@ + size_or(o.bytes, "?"@) + "]"@
}

/// The lines on the artifacts.
pub open spec fn output_lines(outputs: Seq<OutputRecord>) -> Seq<Seq<char>> {
    heading("  Outputs ("@ + number::decimal(outputs.len() as int) + "):"@) + (if outputs.len() == 0 {
        seq!["  (none)"@]
    } else {
        Seq::new(outputs.len(), |i: int| output_row(i, outputs[i]))
    }) + seq![""@]
}

fn output_line(i: usize, o: &OutputRecord) -> (r: String)
    requires
        i < usize::MAX,
    ensures
        r@ == output_row(i as int, *o),
{
    let mut s = String::from_str("  ");
    s.append(count_text(i + 1).as_str());
    s.append(". ");
    s.append(o.path.as_str());
    s.append("  [");
    match &o.kind {
        Some(k) => {
            s.append(k.as_str());
        },
        None => {
            s.append("unknown");
        },
    }
    s.append(", ");
    s.append(size_or_of(o.bytes, "?").as_str());
    s.append("]");
    s
}

fn add_outputs(out: &mut Vec<String>, outputs: &Vec<OutputRecord>)
    ensures
        views(final(out)@) == views(old(out)@) + output_lines(outputs@),
{
    let ghost before = views(out@);
    let mut title = String::from_str("  Outputs (");
    title.append(count_text(outputs.len()).as_str());
    title.append("):");
    add_heading(out, title);
    let ghost head = views(out@);
    if outputs.len() == 0 {
        add_fixed(out, "  (none)");
    } else {
        let mut i: usize = 0;
        assert(views(out@) =~= head + Seq::new(0, |j: int| output_row(j, outputs@[j])));
        while i < outputs.len()
            invariant
                i <= outputs@.len(),
                views(out@) == head + Seq::new(i as nat, |j: int| output_row(j, outputs@[j])),
            decreases outputs@.len() - i,
        {
            add_line(out, output_line(i, &outputs[i]));
            i = i + 1;
            assert(views(out@) =~= head + Seq::new(i as nat, |j: int| output_row(j, outputs@[j])));
        }
    }
    add_fixed(out, "");
    assert(views(out@) =~= before + output_lines(outputs@));
}

/// The line of an event.
pub open spec fn event_row(shown: Seq<char>, e: AuditEvent) -> Seq<char> {
    "  "@ + text::pad_right(shown, 19) + "  "@ + text::pad_right(e.level@, 6) + "  "@
        + text::pad_right(e.kind@, 18) + "  "@ + e.message@
}

/// The lines on the latest events, at most ten.
pub open spec fn event_lines(times: Seq<Seq<char>>, events: Seq<AuditEvent>) -> Seq<Seq<char>> {
    heading("  Recent events (last 10):"@) + (if events.len() == 0 {
        seq!["  (no events recorded for this file)"@]
    } else {
        Seq::new(first(events, 10).len(), |i: int| event_row(times[i], events[i]))
    }) + seq![""@]
}

fn event_line(shown: &str, e: &AuditEvent) -> (r: String)
    ensures
        r@ == event_row(shown@, *e),
{
    let mut s = String::from_str("  ");
    s.append(padded_right(shown, 19).as_str());
    s.append("  ");
    s.append(padded_right(e.level.as_str(), 6).as_str());
    s.append("  ");
    s.append(padded_right(e.kind.as_str(), 18).as_str());
    s.append("  ");
    s.append(e.message.as_str());
    s
}

fn add_events(out: &mut Vec<String>, times: &Vec<String>, events: &Vec<AuditEvent>)
    requires
        times@.len() == events@.len(),
    ensures
        views(final(out)@) == views(old(out)@) + event_lines(views(times@), events@),
{
    let ghost before = views(out@);
    add_heading(out, String::from_str("  Recent events (last 10):"));
    let ghost head = views(out@);
    let ghost ts = views(times@);
    if events.len() == 0 {
        add_fixed(out, "  (no events recorded for this file)");
    } else {
        let n: usize = if events.len() <= 10 {
            events.len()
        } else {
            10
        };
        let mut i: usize = 0;
        assert(views(out@) =~= head + Seq::new(0, |j: int| event_row(ts[j], events@[j])));
        while i < n
            invariant
                i <= n <= events@.len(),
                times@.len() == events@.len(),
                ts == views(times@),
                views(out@) == head + Seq::new(i as nat, |j: int| event_row(ts[j], events@[j])),
            decreases n - i,
        {
            add_line(out, event_line(times[i].as_str(), &events[i]));
            i = i + 1;
            assert(views(out@) =~= head + Seq::new(i as nat, |j: int| event_row(ts[j], events@[j])));
        }
    }
    add_fixed(out, "");
    assert(views(out@) =~= before + event_lines(ts, events@));
}

/// The view of a file, given its times and the section on the agent's run.
pub open spec fn detail_lines(
    row: FileRow,
    outputs: Seq<OutputRecord>,
    events: Seq<AuditEvent>,
    times: DetailTimes,
    now: i64,
    section: Seq<Seq<char>>,
) -> Seq<Seq<char>> {
    box_lines(row) + fact_lines(row, times, now) + section + output_lines(outputs) + event_lines(
        views(times.events@),
        events,
    )
}

/// The view of a file, given its times and the section on the agent's run.
pub fn file_detail(
    row: &FileRow,
    outputs: &Vec<OutputRecord>,
    events: &Vec<AuditEvent>,
    times: &DetailTimes,
    now: i64,
    section: Vec<String>,
) -> (r: Vec<String>)
    requires
        wait_fits(*row, now),
        times.next_attempt is Some <==> row.next_attempt_at is Some,
        times.events@.len() == events@.len(),
    ensures
        views(r@) == detail_lines(*row, outputs@, events@, *times, now, views(section@)),
{
    let mut out: Vec<String> = Vec::new();
    let ghost none = views(out@);
    add_box(&mut out, row);
    assert(views(out@) =~= box_lines(*row));
    add_facts(&mut out, row, times, now);
    let ghost head = views(out@);
    let ghost ss = views(section@);
    let mut section = section;
    out.append(&mut section);
    assert(views(out@) =~= head + ss);
    add_outputs(&mut out, outputs);
    add_events(&mut out, &times.events, events);
    out
}

fn times_of(row: &FileRow, events: &Vec<AuditEvent>) -> (t: DetailTimes)
    ensures
        are_times(t, *row, events@),
{
    let mut shown: Vec<String> = Vec::new();
    let mut i: usize = 0;
    while i < events.len()
        invariant
            i <= events@.len(),
            shown@.len() == i,
            forall|j: int|
                0 <= j < i ==> display::shows_time(#[trigger] shown@[j]@, events@[j].ts),
        decreases events@.len() - i,
    {
        shown.push(fmt_ts(events[i].ts));
        i = i + 1;
    }
    DetailTimes {
        first_seen: fmt_ts(row.first_seen_at),
        updated: fmt_ts(row.updated_at),
        processed: fmt_ts_opt(row.processed_at),
        next_attempt: match row.next_attempt_at {
            Some(t) => Some(fmt_ts(t)),
            None => None,
        },
        events: shown,
    }
}

/// The view of a file, with times in the zone of the machine. `now` is in seconds
/// since the Unix epoch, and `found` is the plan file that the row names.
pub fn render_file_detail(
    row: &FileRow,
    outputs: &Vec<OutputRecord>,
    events: &Vec<AuditEvent>,
    now: i64,
    found: &PlanText,
) -> (r: Vec<String>)
    requires
        wait_fits(*row, now),
    ensures
        exists|times: DetailTimes, section: Seq<Seq<char>>|
            are_times(times, *row, events@) && is_row_section(*row, *found, section) && views(r@)
                == #[trigger] detail_lines(*row, outputs@, events@, times, now, section),
{
    let times = times_of(row, events);
    let section = print_agent_plan_section(&row.processor_meta, found);
    let ghost ss = views(section@);
    proof {
        if !records_run(text_view(row.processor_meta)) {
            assert(ss.len() == 0);
        }
        assert(is_row_section(*row, *found, ss));
    }
    file_detail(row, outputs, events, &times, now, section)
}

/// Whether `shown` is the section on the agent's run that a row records.
pub open spec fn is_row_section(row: FileRow, found: PlanText, shown: Seq<Seq<char>>) -> bool {
    if records_run(text_view(row.processor_meta)) {
        exists|n: AgentNotes|
            notes_are(n, row.processor_meta->0@) && #[trigger] is_plan_section(Some(n), found, shown)
    } else {
        shown.len() == 0
    }
}

/// Whether an event is about the file with the given id.
pub open spec fn about(id: i64) -> spec_fn(AuditEvent) -> bool {
    |e: AuditEvent| e.file_id == Some(id)
}

/// The events about a file, in the order in which they came, at most ten.
pub fn events_of_file(all: Vec<AuditEvent>, id: i64) -> (r: Vec<AuditEvent>)
    ensures
        r@ == first(all@.filter(about(id)), 10),
{
    let ghost given = all@;
    let mut all = all;
    let mut turned: Vec<AuditEvent> = Vec::new();
    while all.len() > 0
        invariant
            all@ + turned@.reverse() == given,
        decreases all@.len(),
    {
        let ghost before = all@;
        let ghost kept = turned@;
        if let Some(e) = all.pop() {
            turned.push(e);
            assert(turned@.reverse() =~= seq![e] + kept.reverse());
            assert(before =~= all@.push(e));
            assert(all@ + turned@.reverse() =~= given);
        }
    }
    assert(turned@.reverse() =~= given);
    let mut r: Vec<AuditEvent> = Vec::new();
    let ghost mut seen = Seq::<AuditEvent>::empty();
    proof {
        reveal(Seq::filter);
    }
    while turned.len() > 0
        invariant
            seen + turned@.reverse() == given,
            r@ == first(seen.filter(about(id)), 10),
        decreases turned@.len(),
    {
        let ghost before = turned@;
        let ghost kept = r@;
        if let Some(e) = turned.pop() {
            proof {
                assert(before.reverse() =~= seq![e] + turned@.reverse());
                assert(seen + before.reverse() =~= seen.push(e) + turned@.reverse());
                assert(seen.push(e).drop_last() =~= seen);
                reveal(Seq::filter);
                seen = seen.push(e);
            }
            let ours = match e.file_id {
                Some(f) => f == id,
                None => false,
            };
            if ours && r.len() < 10 {
                r.push(e);
            }
            assert(r@ =~= first(seen.filter(about(id)), 10));
        }
    }
    assert(seen =~= given);
    r
}

} // verus!
