//! What a user is told when something fails: of what it was, and why.

use vstd::prelude::*;
use vstd::string::*;

use crate::backup::{bak_place, next_of, warning_lines, EventView, NextView, RestoreStep};
use crate::daemon::{
    announcement, audit_note_of, fatal, fatal_context, following, is_verdict, Step, Verdict,
};
use crate::driver::{not_json, AgentError};
use crate::extractor::{is_failure, ExtractionError};
use crate::globs::{blames, first_bad, glob_fault, globs_before, GlobError};
use crate::json;
use crate::json::JsonKind;
use crate::lock::LockError;
use crate::number::numeral;
use crate::obsidian::{hint_of, mode_word, Mode};
use crate::paths::{misplaced, Located, OutputError, PathError};
use crate::plan::{
    entries_said, entry_of_members, entry_views, first_faulty, is_parse, is_read, is_said,
    kind_name, line_entry, members_of, next_said, text_entries, type_fault, EntryMembersView,
    EntryView, FoundPlan, LineFault, LineRead, Plan, PlanEntry, PlanParseError,
};
use crate::secrets::{file_settings, load_outcome, FoundSecrets, SecretsError, SecretsLoad};
use crate::text;
use crate::text::{contains, ends_with, quoted, starts_with, trim};
use crate::text_laws::{law_contains_grows, law_parts_are_found};

verus! {

/// Whether a message is about `what` and ends with the reason `why`.
pub open spec fn blamed(message: Seq<char>, what: Seq<char>, why: Seq<char>) -> bool {
    starts_with(message, what) && ends_with(message, why)
}

proof fn lemma_blamed(a: Seq<char>, b: Seq<char>, sep: Seq<char>, c: Seq<char>)
    ensures
        blamed(a + b + sep + c, a + b, sep + c),
        blamed(a + b + sep + c, a + b + sep, c),
        contains(a + b + sep + c, b),
{
    let m = a + b + sep + c;
    assert(a + b + (sep + c) =~= m);
    assert(starts_with(m, a + b)) by {
        law_parts_are_found(Seq::empty(), a + b, sep + c);
    }
    assert(ends_with(m, sep + c)) by {
        law_parts_are_found(a + b, sep + c, Seq::empty());
    }
    assert(starts_with(m, a + b + sep)) by {
        law_parts_are_found(Seq::empty(), a + b + sep, c);
    }
    assert(ends_with(m, c)) by {
        law_parts_are_found(a + b + sep, c, Seq::empty());
    }
    assert(contains(m, b)) by {
        law_parts_are_found(a, b, sep + c);
    }
}

proof fn lemma_blamed_two(a: Seq<char>, b: Seq<char>)
    ensures
        blamed(a + b, a, b),
{
    law_parts_are_found(Seq::empty(), a, b);
    law_parts_are_found(a, b, Seq::empty());
}

/// An agent that failed: what could not be done, and the cause in its own words.
pub proof fn law_agent_errors(bin: String, m: String, e: PlanParseError, n: u64)
    ensures
        blamed(
            (AgentError::PiSpawn { bin, source: m }).text(),
            "could not exec pi at "@ + quoted(bin@),
            ": "@ + m@,
        ),
        starts_with(
            (AgentError::PiNotFound { bin }).text(),
            "pi binary "@ + quoted(bin@) + " not found on PATH."@,
        ),
        blamed(AgentError::Protocol(m).text(), "pi protocol error: "@, m@),
        blamed(AgentError::SkillsStaging(m).text(), "skills staging failed: "@, m@),
        blamed(AgentError::BadModel(m).text(), "KB_LLM_MODEL has bad shape: "@, m@),
        blamed(AgentError::Io(m).text(), "agent I/O error: "@, m@),
        blamed(AgentError::PlanCorrupt(e).text(), "plan file corrupt: "@, e.text()),
        starts_with(
            (AgentError::Budget { timeout_secs: n }).text(),
            "agent timed out after "@ + numeral(n as nat) + "s"@,
        ),
        starts_with(AgentError::MissingApiKey.text(), "OPENROUTER_API_KEY is not set"@),
{
    lemma_blamed("could not exec pi at "@, quoted(bin@), ": "@, m@);
    lemma_blamed_two("pi protocol error: "@, m@);
    lemma_blamed_two("skills staging failed: "@, m@);
    lemma_blamed_two("KB_LLM_MODEL has bad shape: "@, m@);
    lemma_blamed_two("agent I/O error: "@, m@);
    lemma_blamed_two("plan file corrupt: "@, e.text());
    lemma_not_on_path(quoted(bin@));
    lemma_timed_out(numeral(n as nat));
    lemma_no_key();
}

proof fn lemma_not_on_path(q: Seq<char>)
    ensures
        starts_with(
            "pi binary "@ + q
                + " not found on PATH.  Install pi-coding-agent or set KB_PI_BIN to the absolute path."@,
            "pi binary "@ + q + " not found on PATH."@,
        ),
{
    reveal_strlit(
        " not found on PATH.  Install pi-coding-agent or set KB_PI_BIN to the absolute path.",
    );
    reveal_strlit(" not found on PATH.");
    let t =
        " not found on PATH.  Install pi-coding-agent or set KB_PI_BIN to the absolute path."@;
    let s = " not found on PATH."@;
    assert(t =~= s + t.skip(19));
    lemma_begins("pi binary "@ + q, s, t.skip(19));
}

proof fn lemma_begins(a: Seq<char>, b: Seq<char>, c: Seq<char>)
    ensures
        starts_with(a + (b + c), a + b),
{
    assert(a + (b + c) =~= a + b + c);
    law_parts_are_found(Seq::empty(), a + b, c);
}

proof fn lemma_timed_out(n: Seq<char>)
    ensures
        starts_with(
            "agent timed out after "@ + n + "s without proposing any mutations"@,
            "agent timed out after "@ + n + "s"@,
        ),
{
    reveal_strlit("s without proposing any mutations");
    reveal_strlit("s");
    let t = "s without proposing any mutations"@;
    assert(t =~= "s"@ + t.skip(1));
    lemma_begins("agent timed out after "@ + n, "s"@, t.skip(1));
}

proof fn lemma_no_key()
    ensures
        starts_with(AgentError::MissingApiKey.text(), "OPENROUTER_API_KEY is not set"@),
{
    reveal_strlit(
        "OPENROUTER_API_KEY is not set in the daemon's environment.  Add it to ~/.config/knowledge-builder/secrets.env.",
    );
    reveal_strlit("OPENROUTER_API_KEY is not set");
    let t =
        "OPENROUTER_API_KEY is not set in the daemon's environment.  Add it to ~/.config/knowledge-builder/secrets.env."@;
    assert(t.subrange(0, 29) =~= "OPENROUTER_API_KEY is not set"@);
}

/// A document that could not be read: which one, whether to try again, and why.
pub proof fn law_extraction_errors(path: String, detail: String)
    ensures
        blamed(
            (ExtractionError::SourceUnreadable { path, detail }).text(),
            "source unreadable "@ + path@,
            ": "@ + detail@,
        ),
        blamed(
            (ExtractionError::WorkDirUnusable { path, detail }).text(),
            "work_dir unusable "@ + path@,
            ": "@ + detail@,
        ),
        blamed(
            (ExtractionError::Permanent { path, detail }).text(),
            "permanent extraction failure for "@ + path@,
            ": "@ + detail@,
        ),
        blamed(
            (ExtractionError::Transient { path, detail }).text(),
            "transient extraction failure for "@ + path@,
            ": "@ + detail@,
        ),
        blamed(ExtractionError::Init(detail).text(), "could not initialise the extractor: "@, detail@),
        contains((ExtractionError::EmptyOutput { path, format: detail }).text(), path@),
        contains(
            (ExtractionError::EmptyOutput { path, format: detail }).text(),
            "("@ + detail@ + ")"@,
        ),
{
    lemma_blamed("source unreadable "@, path@, ": "@, detail@);
    lemma_blamed("work_dir unusable "@, path@, ": "@, detail@);
    lemma_blamed("permanent extraction failure for "@, path@, ": "@, detail@);
    lemma_blamed("transient extraction failure for "@, path@, ": "@, detail@);
    lemma_blamed_two("could not initialise the extractor: "@, detail@);
    lemma_empty_output(path@, detail@);
}

proof fn lemma_empty_output(p: Seq<char>, f: Seq<char>)
    ensures
        contains("transmutation produced empty markdown for "@ + p + " ("@ + f + ")"@, p),
        contains(
            "transmutation produced empty markdown for "@ + p + " ("@ + f + ")"@,
            "("@ + f + ")"@,
        ),
{
    let a = "transmutation produced empty markdown for "@;
    assert(" ("@ == " "@ + "("@) by {
        reveal_strlit(" (");
        reveal_strlit(" ");
        reveal_strlit("(");
        assert(" ("@ =~= " "@ + "("@);
    }
    lemma_bracketed(a, p, " "@, "("@, f, ")"@);
}

proof fn lemma_bracketed(
    a: Seq<char>,
    p: Seq<char>,
    b: Seq<char>,
    o: Seq<char>,
    f: Seq<char>,
    c: Seq<char>,
)
    ensures
        contains(a + p + (b + o) + f + c, p),
        contains(a + p + (b + o) + f + c, o + f + c),
{
    let m = a + p + (b + o) + f + c;
    assert(a + p + ((b + o) + f + c) =~= m);
    assert(a + p + b + (o + f + c) + Seq::empty() =~= m);
    assert(contains(m, p)) by {
        law_parts_are_found(a, p, (b + o) + f + c);
    }
    assert(contains(m, o + f + c)) by {
        law_parts_are_found(a + p + b, o + f + c, Seq::empty());
    }
}

/// A failure is permanent or worth another try, as it was judged, and keeps its path and
/// its reason.
pub proof fn law_failure_kind(e: ExtractionError, path: Seq<char>, permanent: bool, why: Seq<char>)
    requires
        is_failure(e, path, (permanent, why)),
    ensures
        e is Permanent <==> permanent,
        e is Transient <==> !permanent,
        e matches ExtractionError::Permanent { path: p, detail } ==> p@ == path && detail@ == why,
        e matches ExtractionError::Transient { path: p, detail } ==> p@ == path && detail@ == why,
{
}

/// A lock that could not be had: which one, and why.
pub proof fn law_lock_errors(path: String, error: String)
    ensures
        starts_with(
            (LockError::AlreadyRunning { lock_path: path }).text(),
            "Another knowledge-builder daemon is already running (lock: "@ + path@ + ")"@,
        ),
        blamed(
            (LockError::IoError { path, error }).text(),
            "I/O error on lock file "@ + path@,
            ": "@ + error@,
        ),
{
    lemma_blamed("I/O error on lock file "@, path@, ": "@, error@);
    lemma_running(path@);
}

proof fn lemma_running(p: Seq<char>)
    ensures
        starts_with(
            "Another knowledge-builder daemon is already running (lock: "@ + p
                + "). Stop it first or run `kb status` to check."@,
            "Another knowledge-builder daemon is already running (lock: "@ + p + ")"@,
        ),
{
    reveal_strlit("). Stop it first or run `kb status` to check.");
    reveal_strlit(")");
    let t = "). Stop it first or run `kb status` to check."@;
    assert(t =~= ")"@ + t.skip(1));
    lemma_begins("Another knowledge-builder daemon is already running (lock: "@ + p, ")"@, t.skip(1));
}

/// A path that may not be written: the path, and what it lies outside of or inside.
pub proof fn law_path_errors(path: String, other: String)
    ensures
        blamed(
            (PathError::Canonicalize { path, source: other }).text(),
            "path does not exist or cannot be canonicalized: "@ + path@,
            ": "@ + other@,
        ),
        blamed(
            (PathError::OutsideVault { path, vault_root: other }).text(),
            "output path is not inside vault_root\n  path:       "@ + path@,
            "\n  vault_root: "@ + other@,
        ),
        blamed(
            (PathError::InsideSources { path, sources_dir: other }).text(),
            "output path is inside sources_dir (would cause reprocessing loop)\n  path:        "@
                + path@,
            "\n  sources_dir: "@ + other@,
        ),
        blamed(PathError::NotAFile(path).text(), "output path is not a regular file: "@, path@),
        blamed(
            (OutputError::OutsideAgentRoot { path, agent_root: other }).text(),
            "output path is not inside agent_root\n  path:       "@ + path@,
            "\n  agent_root: "@ + other@,
        ),
        OutputError::Misplaced(PathError::NotAFile(path)).text() == PathError::NotAFile(
            path,
        ).text(),
{
    lemma_blamed("path does not exist or cannot be canonicalized: "@, path@, ": "@, other@);
    lemma_blamed(
        "output path is not inside vault_root\n  path:       "@,
        path@,
        "\n  vault_root: "@,
        other@,
    );
    lemma_blamed(
        "output path is inside sources_dir (would cause reprocessing loop)\n  path:        "@,
        path@,
        "\n  sources_dir: "@,
        other@,
    );
    lemma_blamed_two("output path is not a regular file: "@, path@);
    lemma_blamed(
        "output path is not inside agent_root\n  path:       "@,
        path@,
        "\n  agent_root: "@,
        other@,
    );
}

// ---------------------------------------------------------------- plans

/// A plan that could not be read: its path, the line, and the reason.
pub proof fn law_plan_errors(path: String, line_no: usize, why: String)
    ensures
        blamed(
            (PlanParseError::Io { path, source: why }).text(),
            "io error reading plan "@ + quoted(path@),
            ": "@ + why@,
        ),
        blamed(
            (PlanParseError::InvalidJson { path, line_no, source: why }).text(),
            quoted(path@) + ":"@ + numeral(line_no as nat) + ": invalid JSON: "@,
            why@,
        ),
        blamed(
            (PlanParseError::Schema { path, line_no, detail: why }).text(),
            quoted(path@) + ":"@ + numeral(line_no as nat) + ": "@,
            why@,
        ),
{
    lemma_blamed("io error reading plan "@, quoted(path@), ": "@, why@);
    let at = quoted(path@) + ":"@ + numeral(line_no as nat);
    lemma_blamed_two(at + ": invalid JSON: "@, why@);
    lemma_blamed_two(at + ": "@, why@);
}

/// What is no object is told by the name of its kind.
pub proof fn law_kind_names(line: Seq<char>, k: JsonKind)
    ensures
        json::json_kind(line) == Ok::<JsonKind, Seq<char>>(k) && k != JsonKind::Object
            ==> line_entry(line) == Err::<EntryView, LineFault>(
            LineFault::Schema("top-level value must be an object, got "@ + kind_name(k)),
        ),
        kind_name(JsonKind::Null) == "null"@,
        kind_name(JsonKind::Bool) == "bool"@,
        kind_name(JsonKind::Number) == "number"@,
        kind_name(JsonKind::Text) == "string"@,
        kind_name(JsonKind::Array) == "array"@,
        kind_name(JsonKind::Object) == "object"@,
{
}

/// What is no JSON is no entry, and the reason is kept. An object is read by the members
/// of an entry.
pub proof fn law_line_entry(line: Seq<char>)
    ensures
        json::json_kind(line) matches Err(why) ==> line_entry(line) == Err::<EntryView, LineFault>(
            LineFault::InvalidJson(why),
        ),
        json::json_kind(line) == Ok::<JsonKind, Seq<char>>(JsonKind::Object) ==> line_entry(line)
            == entry_of_members(members_of(line)),
        members_of(line).ts == json::json_member(line, "ts"@),
        members_of(line).mode == json::json_member(line, "mode"@),
        members_of(line).cmd == json::json_member(line, "cmd"@),
        members_of(line).args == json::json_member(line, "args"@),
        members_of(line).applied == json::json_member(line, "applied"@),
        members_of(line).exit_code == json::json_member(line, "exit_code"@),
{
}

/// The first member of the wrong kind is the one that is told.
pub proof fn law_type_fault(m: EntryMembersView)
    ensures
        json::member_int(m.ts) is None ==> type_fault(m) == Some(
            "plan entry 'ts' must be an integer"@,
        ),
        json::member_int(m.ts) is Some && json::member_text(m.cmd) is None ==> type_fault(m)
            == Some("plan entry 'cmd' must be a string"@),
        json::member_int(m.ts) is Some && json::member_text(m.cmd) is Some && json::member_bool(
            m.applied,
        ) is None ==> type_fault(m) == Some("plan entry 'applied' must be a boolean"@),
        type_fault(m) is None <==> json::member_int(m.ts) is Some && json::member_text(m.cmd)
            is Some && json::member_bool(m.applied) is Some,
{
}

/// What a line says is what comes back of it; of a fault, where it is too.
pub proof fn law_parsed(
    r: Result<PlanEntry, PlanParseError>,
    line: Seq<char>,
    path: Seq<char>,
    line_no: nat,
)
    requires
        is_parse(r, line_entry(line), path, line_no),
    ensures
        r is Ok <==> line_entry(line) is Ok,
        r matches Ok(e) ==> line_entry(line) == Ok::<EntryView, LineFault>(e@),
        r matches Err(PlanParseError::InvalidJson { path: p, line_no: n, source }) ==> p@ == path
            && n == line_no && line_entry(line) == Err::<EntryView, LineFault>(
            LineFault::InvalidJson(source@),
        ),
        r matches Err(PlanParseError::Schema { path: p, line_no: n, detail }) ==> p@ == path && n
            == line_no && line_entry(line) == Err::<EntryView, LineFault>(
            LineFault::Schema(detail@),
        ),
        !(r matches Err(PlanParseError::Io { .. })),
{
}

/// The next line that says anything, or could not be read, is the one that is taken up;
/// the lines that it is behind are blank.
pub proof fn law_next_said(lines: Seq<LineRead>, from: int)
    requires
        0 <= from <= lines.len(),
    ensures
        next_said(lines, from) matches Some(i) ==> from <= i < lines.len() && (lines[i] matches
            LineRead::Text(t) ==> trim(t@).len() > 0) && forall|j: int|
            from <= j < i ==> (#[trigger] lines[j] matches LineRead::Text(t) && trim(t@).len()
                == 0),
        next_said(lines, from) is None ==> forall|j: int|
            from <= j < lines.len() ==> (#[trigger] lines[j] matches LineRead::Text(t) && trim(
                t@,
            ).len() == 0),
    decreases lines.len() - from,
{
    if from < lines.len() {
        law_next_said(lines, from + 1);
    }
}

/// A line that could not be read is told with the reason; any other by what it says, and
/// lines are counted from one.
pub proof fn law_said(
    r: Result<PlanEntry, PlanParseError>,
    lines: Seq<LineRead>,
    i: int,
    path: Seq<char>,
)
    requires
        0 <= i < lines.len(),
        is_said(r, lines, i, path),
    ensures
        lines[i] matches LineRead::Failed(why) ==> (r matches Err(
            PlanParseError::Io { path: p, source },
        ) && p@ == path && source@ == why@),
        lines[i] matches LineRead::Text(t) ==> is_parse(
            r,
            line_entry(trim(t@)),
            path,
            (i + 1) as nat,
        ),
{
}

/// The entries of a text are those of its lines, in order; blank lines say nothing, and
/// one faulty line spoils the whole.
pub proof fn law_text_entries(lines: Seq<Seq<char>>, n: nat)
    requires
        n < lines.len(),
    ensures
        text_entries(lines, 0) == Some(Seq::<EntryView>::empty()),
        text_entries(lines, n) is None ==> text_entries(lines, n + 1) is None,
        text_entries(lines, n) matches Some(es) ==> {
            let l = trim(lines[n as int]);
            &&& l.len() == 0 ==> text_entries(lines, n + 1) == Some(es)
            &&& l.len() > 0 && line_entry(l) is Ok ==> text_entries(lines, n + 1) == Some(
                es.push(line_entry(l)->Ok_0),
            )
            &&& l.len() > 0 && line_entry(l) is Err ==> text_entries(lines, n + 1) is None
        },
{
}

/// A line of the agent that is no JSON is told in part, with the reason.
pub proof fn law_not_json(line: Seq<char>, error: Seq<char>)
    ensures
        starts_with(
            not_json(line, error),
            "pi emitted non-JSON line: "@ + quoted(text::clip(line, 200)),
        ),
        ends_with(not_json(line, error), " ("@ + error + ")"@),
{
    let q = quoted(text::clip(line, 200));
    let a = "pi emitted non-JSON line: "@;
    let z = " ("@ + error + ")"@;
    assert(not_json(line, error) =~= a + q + z);
    law_parts_are_found(Seq::empty(), a + q, z);
    law_parts_are_found(a + q, z, Seq::empty());
}

// ---------------------------------------------------------------- the daemon

/// A step that failed ends the daemon only where it must not go on without it, and the
/// cause is kept. Any other is followed by the next.
pub proof fn law_verdict(s: Step, outcome: Result<(), Seq<char>>, v: Verdict)
    requires
        is_verdict(s, outcome, v),
    ensures
        v is Stop <==> fatal(s) && outcome is Err,
        v matches Verdict::Stop(e) ==> outcome == Err::<(), Seq<char>>(e.cause@)
            && json::text_view(e.context) == fatal_context(s),
        v matches Verdict::Go(t) ==> following(s) == Some(t),
        v is Finished ==> s == Step::ReleaseLock,
{
}

/// What was being tried, where the cause does not say it.
pub proof fn law_fatal_context(s: Step)
    ensures
        fatal_context(Step::InitLogging) == Some("Failed to initialise logging"@),
        fatal_context(Step::OpenStore) == Some("Failed to open state store"@),
        fatal_context(Step::Recover) == Some("Crash recovery failed"@),
        fatal_context(Step::StartPipeline) == Some("Failed to build detection pipeline"@),
        fatal_context(Step::CompileGlobs) == Some(
            "Failed to compile ignore_glob patterns from config"@,
        ),
        fatal_context(Step::LoadConfig) matches Some(t) && starts_with(
            t,
            "Failed to start daemon: configuration is invalid."@,
        ),
        fatal_context(s) is Some ==> fatal(s),
        fatal_context(Step::AcquireLock) is None && fatal_context(Step::LoadSecrets) is None,
{
    reveal_strlit(
        "Failed to start daemon: configuration is invalid.\nRun `kb doctor` for a detailed diagnosis.",
    );
    reveal_strlit("Failed to start daemon: configuration is invalid.");
    let t =
        "Failed to start daemon: configuration is invalid.\nRun `kb doctor` for a detailed diagnosis."@;
    assert(t.subrange(0, 49) =~= "Failed to start daemon: configuration is invalid."@);
}

/// A daemon in the foreground says when it has started, when it stops and when it has
/// stopped, and nothing else; one in the background says nothing.
pub proof fn law_announced(s: Step, vault_root: Seq<char>)
    ensures
        announcement(s, false, vault_root) is None,
        announcement(s, true, vault_root) is Some <==> s == Step::StartPool || s
            == Step::AwaitSignal || s == Step::ReleaseLock,
        announcement(Step::StartPool, true, vault_root) matches Some(t) && starts_with(
            t,
            "Knowledge Builder daemon started  (vault="@ + vault_root + ")"@,
        ),
        announcement(Step::AwaitSignal, true, vault_root) == Some("\nShutting down..."@),
        announcement(Step::ReleaseLock, true, vault_root) == Some("Daemon stopped cleanly"@),
{
    reveal_strlit(")  — Ctrl-C to stop");
    reveal_strlit(")");
    let t = ")  — Ctrl-C to stop"@;
    assert(t =~= ")"@ + t.skip(1));
    lemma_begins("Knowledge Builder daemon started  (vault="@ + vault_root, ")"@, t.skip(1));
}

/// Two steps leave a note behind: that the daemon started, and that it stops.
pub proof fn law_audit_notes(s: Step)
    ensures
        audit_note_of(Step::RecordStarted) == Some(("daemon_started"@, "daemon started"@)),
        audit_note_of(Step::RecordStopping) == Some(("daemon_stopping"@, "daemon stopping"@)),
        s != Step::RecordStarted && s != Step::RecordStopping ==> audit_note_of(s) is None,
{
}

// ---------------------------------------------------------------- restoring

/// Before a restore the user sees which database goes, where it goes and what takes its
/// place.
pub proof fn law_restore_warning(db_path: Seq<char>, backup_path: Seq<char>)
    ensures
        warning_lines(db_path, backup_path).contains("  Current database : "@ + db_path),
        warning_lines(db_path, backup_path).contains("  Will be moved to : "@ + bak_place(db_path)),
        warning_lines(db_path, backup_path).contains("  Restoring from   : "@ + backup_path),
        warning_lines(db_path, backup_path).contains(
            "⚠️  WARNING: This operation will REPLACE the current database."@,
        ),
{
    let w = warning_lines(db_path, backup_path);
    assert(w[1] == "⚠️  WARNING: This operation will REPLACE the current database."@);
    assert(w[3] == "  Current database : "@ + db_path);
    assert(w[4] == "  Will be moved to : "@ + bak_place(db_path));
    assert(w[5] == "  Restoring from   : "@ + backup_path);
}

/// What a restore says at its end, and which files a failed one was about. Of a failure
/// the cause is kept.
pub proof fn law_restore_told(
    force: bool,
    backup_path: Seq<char>,
    db_path: Seq<char>,
    why: Seq<char>,
)
    ensures
        ({
            let after = |s: RestoreStep, e: EventView| next_of(force, backup_path, db_path, s, e);
            &&& after(RestoreStep::CopyBackup, EventView::Yes) == NextView::Done(
                "Restored from: "@ + backup_path + ". Previous DB saved to "@ + bak_place(db_path),
            )
            &&& after(RestoreStep::FindBackup, EventView::No) matches NextView::Fail(m, c)
                && contains(m, "'"@ + backup_path + "'"@) && c is None
            &&& after(RestoreStep::CheckBackup, EventView::Failed(why)) == NextView::Fail(why, None)
            &&& after(RestoreStep::MoveAside, EventView::Failed(why)) matches NextView::Fail(m, c)
                && contains(m, db_path) && contains(m, bak_place(db_path)) && c == Some(why)
            &&& after(RestoreStep::CopyBackup, EventView::Failed(why)) matches
                NextView::MoveBackAndFail(m, c) && contains(m, backup_path) && contains(m, db_path)
                && c == Some(why)
            &&& after(RestoreStep::Confirm, EventView::Failed(why)) matches NextView::Fail(m, c) && c
                == Some(why)
            &&& after(RestoreStep::MakeParent, EventView::Failed(why)) matches NextView::Fail(m, c)
                && c == Some(why)
        }),
{
    lemma_missing_backup(backup_path);
    lemma_two_paths(
        "cannot move current database '"@,
        db_path,
        "' to backup location '"@,
        bak_place(db_path),
        "'"@,
    );
    lemma_two_paths(
        "failed to copy '"@,
        backup_path,
        "' → '"@,
        db_path,
        "'; attempted to restore the original database"@,
    );
}

proof fn lemma_missing_backup(p: Seq<char>)
    ensures
        contains(
            "Backup file not found: '"@ + p + "'\nUse `kb backup --output <path>` to create one."@,
            "'"@ + p + "'"@,
        ),
{
    reveal_strlit("Backup file not found: '");
    reveal_strlit("'\nUse `kb backup --output <path>` to create one.");
    reveal_strlit("'");
    let a = "Backup file not found: '"@;
    let z = "'\nUse `kb backup --output <path>` to create one."@;
    let q = "'"@;
    assert(a =~= a.take(23) + q);
    assert(z =~= q + z.skip(1));
    lemma_between(a.take(23), q, p, z.skip(1));
}

proof fn lemma_between(a: Seq<char>, q: Seq<char>, p: Seq<char>, z: Seq<char>)
    ensures
        contains((a + q) + p + (q + z), q + p + q),
{
    assert((a + q) + p + (q + z) =~= a + (q + p + q) + z);
    law_parts_are_found(a, q + p + q, z);
}

proof fn lemma_two_paths(a: Seq<char>, p: Seq<char>, b: Seq<char>, q: Seq<char>, c: Seq<char>)
    ensures
        contains(a + p + b + q + c, p),
        contains(a + p + b + q + c, q),
{
    assert(contains(a + p + b, p)) by {
        law_parts_are_found(a, p, b);
    }
    law_contains_grows(a + p + b, q, p);
    law_contains_grows(a + p + b + q, c, p);
    law_parts_are_found(a + p + b, q, c);
}

// ---------------------------------------------------------------- names and globs

/// The words for the two ways of writing.
pub proof fn law_mode_words(m: Mode)
    ensures
        mode_word(Mode::Shadow) == "shadow"@,
        mode_word(Mode::Apply) == "apply"@,
{
}

/// The directory of the agent is hinted at by its last name.
pub proof fn law_hint(agent: Seq<char>)
    ensures
        crate::paths::file_name(agent) matches Some(n) ==> hint_of(agent) == n,
        crate::paths::file_name(agent) is None ==> hint_of(agent) == "KnowledgeBase"@,
{
}

/// The pattern that is blamed is the first that is no glob, and it is named.
pub proof fn law_blamed_pattern(e: GlobError, patterns: Seq<Seq<char>>, i: int, j: int)
    requires
        first_bad(patterns, i),
        blames(e, patterns, i),
    ensures
        e.context@ == "Invalid ignore_glob pattern: "@ + quoted(patterns[i]),
        glob_fault(patterns[i]) == Some(e.cause@),
        0 <= j < i ==> glob_fault(patterns[j]) is None,
        first_bad(patterns, j) ==> i == j,
        !globs_before(patterns, patterns.len() as int),
{
    assert(glob_fault(patterns[i]) is Some);
    if first_bad(patterns, j) {
        assert(glob_fault(patterns[j]) is Some);
    }
}

// ---------------------------------------------------------------- outputs and secrets

/// An output that may not stand where it stands is named, together with the directory
/// that it lies outside of or in.
pub proof fn law_misplaced(
    e: PathError,
    output_path: Seq<char>,
    found: Result<Located, String>,
    vault_root: Seq<char>,
    sources_dir: Seq<char>,
)
    requires
        misplaced(e, output_path, found, vault_root, sources_dir),
    ensures
        e matches PathError::Canonicalize { path, source } ==> path@ == output_path && (found matches
            Err(s) && source@ == s@),
        e matches PathError::NotAFile(path) ==> (found matches Ok(l) && path@ == l.canonical@),
        e matches PathError::OutsideVault { path, vault_root: v } ==> v@ == vault_root && (
        found matches Ok(l) && path@ == l.canonical@),
        e matches PathError::InsideSources { path, sources_dir: d } ==> d@ == sources_dir && (
        found matches Ok(l) && path@ == l.canonical@),
{
}

/// Secrets that could not be read: the file, the line and the reason.
pub proof fn law_secrets_errors(path: String, line: usize, why: String)
    ensures
        blamed(
            (SecretsError::Io { path, source: why }).text(),
            "failed to read secrets file '"@ + path@,
            "': "@ + why@,
        ),
        blamed(
            (SecretsError::Parse { path, line, detail: why }).text(),
            "secrets file '"@ + path@ + "' line "@ + numeral(line as nat),
            ": "@ + why@,
        ),
{
    lemma_blamed("failed to read secrets file '"@, path@, "': "@, why@);
    lemma_blamed("secrets file '"@ + path@ + "' line "@, numeral(line as nat), ": "@, why@);
}

/// What came of loading the secrets: nothing of a file that is not there, the cause of one
/// that could not be read, the line and the fault of one that is wrong, and else the
/// settings that it makes.
pub proof fn law_secrets_loaded(
    path: Seq<char>,
    found: FoundSecrets,
    r: Result<SecretsLoad, SecretsError>,
)
    requires
        load_outcome(path, found, r),
    ensures
        found is Missing ==> (r matches Ok(l) && !l.loaded && l.entries@ == Map::<
            Seq<char>,
            Seq<char>,
        >::empty()),
        found matches FoundSecrets::NoMetadata(why) ==> (r matches Err(
            SecretsError::Io { path: p, source },
        ) && p@ == path && source@ == why@),
        r matches Ok(l) ==> l.path@ == path && (l.loaded <==> found is Present),
        found matches FoundSecrets::Present { mode, content } ==> match content {
            Err(why) => r matches Err(SecretsError::Io { path: p, source }) && p@ == path && source@
                == why@,
            Ok(c) => match file_settings(c@) {
                Ok(m) => r matches Ok(l) && l.entries@ == m,
                Err((n, why)) => r matches Err(SecretsError::Parse { path: p, line, detail }) && p@
                    == path && line == n && detail@ == why,
            },
        },
{
}

/// What came of reading a plan: no entries of one that is not there, the cause of one that
/// could not be opened, and else either what all of its lines say or the fault of the
/// first line that is wrong.
pub proof fn law_plan_read(path: Seq<char>, found: FoundPlan, r: Result<Plan, PlanParseError>)
    requires
        is_read(path, found, r),
    ensures
        found is Missing ==> (r matches Ok(p) && p.entries@.len() == 0),
        found matches FoundPlan::Unopened(why) ==> (r matches Err(
            PlanParseError::Io { path: p, source },
        ) && p@ == path && source@ == why@),
        r matches Ok(p) ==> p.path@ == path,
        found matches FoundPlan::Lines(lines) ==> {
            let said = entries_said(lines@, lines@.len());
            &&& r is Ok <==> said is Some
            &&& r matches Ok(p) ==> said == Some(entry_views(p.entries@))
            &&& r is Err ==> exists|i: int, q: Result<PlanEntry, PlanParseError>|
                #![trigger is_said(q, lines@, i, path)]
                0 <= i < lines@.len() && is_said(q, lines@, i, path) && q is Err && r->Err_0
                    == q->Err_0 && entries_said(lines@, i as nat) is Some
        },
{
    if let FoundPlan::Lines(lines) = found {
        if r is Err {
            let (i, q) = choose|i: int, q: Result<PlanEntry, PlanParseError>|
                #![trigger is_said(q, lines@, i, path)]
                first_faulty(lines@, i) && is_said(q, lines@, i, path) && r is Err && q is Err
                    && r->Err_0 == q->Err_0;
            assert(is_said(q, lines@, i, path));
        }
    }
}

} // verus!
