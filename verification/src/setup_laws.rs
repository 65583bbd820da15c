//! What finding the agent, bringing a database up to date and the fixed names promise.

use vstd::prelude::*;
use vstd::string::*;

use crate::commands::bytes_at;
use crate::event_kind;
use crate::json::{
    member_bool, member_int, member_read_back, member_text, member_unsigned, read_back, FieldView,
    MemberView,
};
use crate::lock::lock_path;
use crate::metrics;
use crate::migrations::{pending_versions, sql_of, version_after, versions, MIGRATION_001};
use crate::pi_resolver::{first_place, leads_to, location_of, shim_manager, LocationView, Place};
use crate::text;
use crate::text_laws::law_parts_are_found;

verus! {

// ---------------------------------------------------------------- the agent

/// The first place that holds a file is taken, whatever stands behind it; places that
/// hold none are passed over.
pub proof fn law_first_place(before: Seq<Place>, p: Place, after: Seq<Place>)
    requires
        forall|i: int| 0 <= i < before.len() ==> !(#[trigger] before[i]).is_file,
    ensures
        p.is_file ==> first_place(before + seq![p] + after, 0) == Some(p),
        first_place(before, 0) is None,
        location_of(before) == LocationView::NotFound,
{
    lemma_first_place(before, p, after, 0);
}

proof fn lemma_first_place(before: Seq<Place>, p: Place, after: Seq<Place>, from: int)
    requires
        0 <= from <= before.len(),
        forall|i: int| 0 <= i < before.len() ==> !(#[trigger] before[i]).is_file,
    ensures
        p.is_file ==> first_place(before + seq![p] + after, from) == Some(p),
        first_place(before, from) is None,
    decreases before.len() - from,
{
    let all = before + seq![p] + after;
    if from < before.len() {
        assert(all[from] == before[from]);
        assert(!before[from].is_file);
        lemma_first_place(before, p, after, from + 1);
    } else {
        assert(all[from] == p);
    }
}

/// A path of the shell's own is told from one that lasts, and the manager that made it is
/// named. Either way what is run is where the path leads.
pub proof fn law_location(ps: Seq<Place>, p: Place, m: Seq<char>)
    requires
        first_place(ps, 0) == Some(p),
    ensures
        shim_manager(p.path@) is None ==> location_of(ps) == LocationView::Stable(leads_to(p)),
        shim_manager(p.path@) == Some(m) ==> location_of(ps) == (LocationView::PerShellShim {
            shim: p.path@,
            stable: leads_to(p),
            manager: m,
        }),
        p.canonical matches Some(c) ==> leads_to(p) == c@,
        p.canonical is None ==> leads_to(p) == p.path@,
{
}

/// Two managers put a program under a directory of the shell's own.
pub proof fn law_shim_manager(a: Seq<char>, b: Seq<char>)
    ensures
        shim_manager(a + "/.local/state/fnm_multishells/"@ + b) == Some("fnm"@),
        ({
            let p = a + "/.nvm/versions/node/"@ + b;
            !text::contains(p, "/.local/state/fnm_multishells/"@) ==> shim_manager(p) == Some(
                "nvm"@,
            )
        }),
        !text::contains(a, "/.local/state/fnm_multishells/"@) && !text::contains(
            a,
            "/.nvm/versions/node/"@,
        ) ==> shim_manager(a) is None,
{
    law_parts_are_found(a, "/.local/state/fnm_multishells/"@, b);
    law_parts_are_found(a, "/.nvm/versions/node/"@, b);
}

// ---------------------------------------------------------------- the database

/// What a database still needs is each version that it has not reached, and no other.
pub proof fn law_pending(current: i64, n: nat, v: i64)
    requires
        n <= versions().len(),
    ensures
        pending_versions(current, n).contains(v) <==> v > current && versions().take(
            n as int,
        ).contains(v),
    decreases n,
{
    if n > 0 {
        let k = n - 1;
        law_pending(current, k as nat, v);
        let w = versions()[k];
        let all = versions().take(n as int);
        let before = versions().take(k);
        assert(all =~= before.push(w));
        let ps = pending_versions(current, k as nat);
        if w > current {
            lemma_push_contains(ps, w, v);
        }
        lemma_push_contains(before, w, v);
    }
}

proof fn lemma_push_contains(s: Seq<i64>, w: i64, v: i64)
    ensures
        s.push(w).contains(v) <==> s.contains(v) || v == w,
{
    if s.contains(v) {
        let i = choose|i: int| 0 <= i < s.len() && s[i] == v;
        assert(s.push(w)[i] == v);
    }
    if v == w {
        assert(s.push(w)[s.len() as int] == v);
    }
    if s.push(w).contains(v) {
        let i = choose|i: int| 0 <= i < s.push(w).len() && s.push(w)[i] == v;
        if i < s.len() {
            assert(s[i] == v);
        }
    }
}

/// A database is then at the highest version that was applied, and never behind where it
/// was.
pub proof fn law_version_after(current: i64, applied: Seq<i64>)
    ensures
        version_after(current, applied) >= current,
        forall|i: int| 0 <= i < applied.len() ==> version_after(current, applied) >= #[trigger]
            applied[i],
        version_after(current, applied) == current || applied.contains(
            version_after(current, applied),
        ),
    decreases applied.len(),
{
    if applied.len() > 0 {
        let front = applied.drop_last();
        law_version_after(current, front);
        assert forall|i: int| 0 <= i < applied.len() implies version_after(current, applied)
            >= #[trigger] applied[i] by {
            if i < front.len() {
                assert(front[i] == applied[i]);
            }
        }
        let v = version_after(current, front);
        if front.contains(v) {
            let i = choose|i: int| 0 <= i < front.len() && front[i] == v;
            assert(applied[i] == v);
        }
        assert(applied[applied.len() - 1] == applied.last());
    }
}

/// The versions are counted from one without a gap, and the first has its text.
pub proof fn law_versions(i: int)
    requires
        0 <= i < versions().len(),
    ensures
        versions()[0] == 1,
        versions()[i] == i + 1,
        sql_of(1) == MIGRATION_001@,
{
}

/// The lock lies beside the database: its path, and an ending.
pub proof fn law_lock_path(db_path: Seq<char>)
    ensures
        lock_path(db_path).len() == db_path.len() + 5,
        lock_path(db_path).take(db_path.len() as int) == db_path,
        text::ends_with(lock_path(db_path), ".lock"@),
{
    reveal_strlit(".lock");
    law_parts_are_found(db_path, ".lock"@, Seq::empty());
    assert(lock_path(db_path).take(db_path.len() as int) =~= db_path);
}

// ---------------------------------------------------------------- bytes

/// Bytes stand in others where those are something, the bytes and something.
pub proof fn law_bytes_at(a: Seq<u8>, needle: Seq<u8>, b: Seq<u8>, hay: Seq<u8>, i: int)
    ensures
        bytes_at(a + needle + b, needle, a.len() as int),
        bytes_at(hay, needle, i) ==> hay == hay.take(i) + needle + hay.skip(i + needle.len()),
{
    let s = a + needle + b;
    assert(s.subrange(a.len() as int, a.len() as int + needle.len()) =~= needle);
    if bytes_at(hay, needle, i) {
        assert(hay =~= hay.take(i) + hay.subrange(i, i + needle.len()) + hay.skip(
            i + needle.len(),
        ));
    }
}

// ---------------------------------------------------------------- records

/// A member is read only as what it is.
pub proof fn law_member_kinds(t: Seq<char>, b: bool, n: Option<int>, u: Option<int>)
    ensures
        ({
            let text = Some(MemberView::Text(t));
            let flag = Some(MemberView::Bool(b));
            let number = Some(MemberView::Number { signed: n, unsigned: u });
            &&& member_text(text) == Some(t) && member_text(flag) is None && member_text(number)
                is None && member_text(None) is None
            &&& member_bool(flag) == Some(b) && member_bool(text) is None && member_bool(number)
                is None && member_bool(None) is None
            &&& member_int(number) == n && member_int(text) is None && member_int(flag) is None
            &&& member_unsigned(number) == u && member_unsigned(text) is None && member_unsigned(
                flag,
            ) is None
        }),
{
}

/// A field that was written is read back as it was. Of two with one name the last counts.
pub proof fn law_read_back(
    fs: Seq<(Seq<char>, FieldView)>,
    name: Seq<char>,
    key: Seq<char>,
    f: FieldView,
)
    ensures
        member_read_back(Seq::empty(), key) is None,
        member_read_back(fs.push((key, f)), key) == Some(read_back(f)),
        name != key ==> member_read_back(fs.push((name, f)), key) == member_read_back(fs, key),
        f matches FieldView::Text(t) ==> member_text(Some(read_back(f))) == Some(t),
        f matches FieldView::Bool(b) ==> member_bool(Some(read_back(f))) == Some(b),
        f matches FieldView::Int(n) ==> member_int(Some(read_back(f))) == Some(n),
        f matches FieldView::Unsigned(n) ==> member_unsigned(Some(read_back(f))) == Some(n),
{
    assert(fs.push((key, f)).drop_last() =~= fs);
    assert(fs.push((name, f)).drop_last() =~= fs);
}

// ---------------------------------------------------------------- names

/// The kinds of events, as they are kept and sent.
pub proof fn law_event_kinds()
    ensures
        event_kind::DISCOVERED@ == "discovered"@,
        event_kind::STABLE@ == "stable"@,
        event_kind::HASHED@ == "hashed"@,
        event_kind::QUEUED@ == "queued"@,
        event_kind::SKIPPED_DUPLICATE@ == "skipped_duplicate"@,
        event_kind::CLAIMED@ == "claimed"@,
        event_kind::PROCESSOR_STARTED@ == "processor_started"@,
        event_kind::PROCESSOR_STDOUT@ == "processor_stdout"@,
        event_kind::PROCESSOR_EXIT@ == "processor_exit"@,
        event_kind::OUTPUT_RECORDED@ == "output_recorded"@,
        event_kind::DONE@ == "done"@,
        event_kind::FAILED@ == "failed"@,
        event_kind::RECOVERED@ == "recovered"@,
        event_kind::SCAN_STARTED@ == "scan_started"@,
        event_kind::SCAN_FINISHED@ == "scan_finished"@,
        event_kind::CONFIG_LOADED@ == "config_loaded"@,
        event_kind::DAEMON_STARTED@ == "daemon_started"@,
        event_kind::DAEMON_STOPPING@ == "daemon_stopping"@,
{
}

/// The metrics, as they are reported.
pub proof fn law_metric_names()
    ensures
        metrics::QUEUE_DEPTH@ == "kb_queue_depth"@,
        metrics::IN_FLIGHT@ == "kb_in_flight"@,
        metrics::PROCESSED_TOTAL@ == "kb_processed_total"@,
        metrics::FAILED_TOTAL@ == "kb_failed_total"@,
        metrics::PROCESSOR_DURATION@ == "kb_processor_duration_seconds"@,
        metrics::HASH_DURATION@ == "kb_hash_duration_seconds"@,
        metrics::SCAN_DURATION@ == "kb_scan_duration_seconds"@,
{
}

} // verus!
