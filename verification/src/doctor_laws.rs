//! What the pre-flight checks promise: when they pass, and that the report leaves no
//! finding out.

use vstd::prelude::*;
use vstd::string::*;

use crate::doctor::{
    backup_finding, clean, config_findings, database_finding, doctor_findings, finding_line,
    finding_lines, log_finding, numbered, place_finding, report_lines, secrets_finding,
    ConfigCheck, DatabaseCheck, DoctorFacts, FindingView, Mark, SecretsCheck,
};
use crate::number;
use crate::text;
use crate::text::views;
use crate::text_laws;

verus! {

/// Whether the daemon may start with what was found: nothing is wrong with the
/// configuration, the database is sound or still to be made, the log directory can be
/// written, and no secrets lie open or cannot be read.
pub open spec fn ready(f: DoctorFacts) -> bool {
    &&& f.config_errors@.len() == 0
    &&& f.database is Missing || (f.database matches DatabaseCheck::Row(s) && s@ == "ok"@)
    &&& f.log_dir_error is None
    &&& !(f.secrets is Unreadable)
    &&& !(f.secrets matches SecretsCheck::Readable { mode, .. } && mode matches Some(m)
        && m != 0o600)
}

/// The checks pass for a configuration that could be parsed and facts that are in order,
/// and for nothing else. Neither a missing file nor an old backup holds the daemon back.
pub proof fn law_checks_pass(path: Seq<char>, exists: bool, c: ConfigCheck)
    ensures
        clean(doctor_findings(path, exists, c)) <==> (c matches ConfigCheck::Parsed(f) && ready(
            f,
        )),
{
    let fs = doctor_findings(path, exists, c);
    match c {
        ConfigCheck::Unparseable(e) => {
            assert(fs[1].mark == Mark::Fail);
        },
        ConfigCheck::Parsed(f) => {
            let errors = views(f.config_errors@);
            let cs = config_findings(errors);
            let k = cs.len() as int;
            assert(fs.len() == 6 + k);
            assert(fs[2] == cs[0]);
            assert(fs[2 + k] == database_finding(f.db_path@, f.database));
            assert(fs[3 + k] == log_finding(
                f.log_dir@,
                crate::json::text_view(f.log_dir_error),
            ));
            assert(fs[4 + k] == backup_finding(f.backup_age_days));
            assert(fs[5 + k] == secrets_finding(f.secrets));
            if errors.len() > 0 {
                assert(cs[0].mark == Mark::Fail);
            } else {
                assert(k == 1);
                assert(fs[0] == place_finding(path, exists));
                assert(fs[1].mark == Mark::Pass);
            }
        },
    }
}

/// Each error of the configuration is told, in its own words and as a failure.
pub proof fn law_every_error_is_told(path: Seq<char>, exists: bool, f: DoctorFacts, i: int)
    requires
        0 <= i < f.config_errors@.len(),
    ensures
        doctor_findings(path, exists, ConfigCheck::Parsed(f))[i + 2] == (FindingView {
            mark: Mark::Fail,
            text: f.config_errors@[i]@,
        }),
{
    let errors = views(f.config_errors@);
    assert(config_findings(errors)[i] == crate::doctor::found(Mark::Fail, errors[i]));
    assert(doctor_findings(path, exists, ConfigCheck::Parsed(f))[i + 2] == config_findings(
        errors,
    )[i]);
}

/// A backup is recent for a week. Any other is worth a look, and so is none.
pub proof fn law_recent_backup(age: Option<u64>)
    ensures
        backup_finding(age).mark == Mark::Pass <==> (age matches Some(n) && n <= 7),
        backup_finding(age).mark == Mark::Pass || backup_finding(age).mark == Mark::Warn,
        age matches Some(n) ==> text::contains(backup_finding(age).text, number::decimal(n as int)),
        age is None ==> backup_finding(age).text == "No backup found — run `kb backup`."@,
{
    if let Some(n) = age {
        let d = number::decimal(n as int);
        let a = "Last backup is "@;
        text_laws::law_parts_are_found(
            a,
            d,
            if n <= 7 {
                " day(s) old — within the 7-day window."@
            } else {
                " day(s) old — older than 7 days; run `kb backup`."@
            },
        );
    }
}

/// What is said of a database that fails the check names its cause.
pub proof fn law_database_told(db_path: Seq<char>, s: String)
    ensures
        database_finding(db_path, DatabaseCheck::Missing).mark == Mark::Pass,
        text::contains(database_finding(db_path, DatabaseCheck::Missing).text, db_path),
        database_finding(db_path, DatabaseCheck::Row(s)).mark == Mark::Pass <==> s@ == "ok"@,
        s@ != "ok"@ ==> text::contains(
            database_finding(db_path, DatabaseCheck::Row(s)).text,
            "SQLite integrity check failed: "@ + s@,
        ),
        database_finding(db_path, DatabaseCheck::CannotOpen(s)).mark == Mark::Fail,
        text::contains(
            database_finding(db_path, DatabaseCheck::CannotOpen(s)).text,
            "'"@ + db_path + "': "@ + s@,
        ),
        database_finding(db_path, DatabaseCheck::Panicked(s)) == (FindingView {
            mark: Mark::Fail,
            text: "SQLite integrity check task panicked: "@ + s@,
        }),
{
    text_laws::law_parts_are_found(
        "Database will be created on first daemon start.\n\t   (planned path: "@,
        db_path,
        ")"@,
    );
    let t = "SQLite integrity check failed: "@ + s@;
    let e = "\n\t   Backup the DB immediately; consider `VACUUM INTO backup.db`."@;
    text_laws::law_parts_are_found(Seq::empty(), t, e);
    assert(Seq::<char>::empty() + t + e =~= t + e);
    reveal_strlit("Cannot open database '");
    reveal_strlit("Cannot open database ");
    reveal_strlit("'");
    let tail = "\n\t   Ensure the path is writable and not locked by another process."@;
    let m = "'"@ + db_path + "': "@ + s@;
    text_laws::law_parts_are_found("Cannot open database "@, m, tail);
    assert("Cannot open database "@ + m + tail =~= "Cannot open database '"@ + db_path + "': "@ + s@
        + tail);
}

/// The log directory, where it can be written; else why not.
pub proof fn law_log_told(log_dir: Seq<char>, e: Seq<char>)
    ensures
        log_finding(log_dir, None).mark == Mark::Pass,
        text::contains(log_finding(log_dir, None).text, log_dir),
        log_finding(log_dir, Some(e)).mark == Mark::Fail,
        text::contains(log_finding(log_dir, Some(e)).text, log_dir),
        text::contains(log_finding(log_dir, Some(e)).text, e),
{
    let none = Seq::<char>::empty();
    text_laws::law_parts_are_found("Log directory is writable: "@, log_dir, none);
    assert("Log directory is writable: "@ + log_dir + none =~= "Log directory is writable: "@
        + log_dir);
    let t = log_finding(log_dir, Some(e)).text;
    let a = "Log directory '"@;
    let b = "' cannot be created: "@;
    text_laws::law_parts_are_found(a, log_dir, b + e);
    assert(a + log_dir + (b + e) =~= t);
    text_laws::law_parts_are_found(a + log_dir + b, e, none);
    assert(a + log_dir + b + e + none =~= t);
}

/// The configuration file is found only where it is.
pub proof fn law_place_told(path: Seq<char>, exists: bool)
    ensures
        place_finding(path, exists).mark == (if exists {
            Mark::Pass
        } else {
            Mark::Warn
        }),
        text::contains(place_finding(path, exists).text, path),
        exists ==> place_finding(path, exists).text == "Config file found at "@ + path,
        !exists ==> text::starts_with(
            place_finding(path, exists).text,
            "Config file not found at "@ + path,
        ),
{
    let none = Seq::<char>::empty();
    if exists {
        let a = "Config file found at "@;
        text_laws::law_parts_are_found(a, path, none);
        assert(a + path + none =~= a + path);
    } else {
        let a = "Config file not found at "@;
        let b = " — built-in defaults will be used."@;
        text_laws::law_parts_are_found(a, path, b);
        assert((a + path + b).take((a + path).len() as int) =~= a + path);
    }
}

/// The secrets: each key by its name; of a file that lies open, how open it is.
pub proof fn law_secrets_told(path: String, mode: Option<u32>, keys: Vec<String>, e: String)
    ensures
        secrets_finding(SecretsCheck::Missing { path }).mark == Mark::Warn,
        text::contains(secrets_finding(SecretsCheck::Missing { path }).text, path@),
        secrets_finding(SecretsCheck::Unreadable(e)) == (FindingView {
            mark: Mark::Fail,
            text: "Cannot read the secrets file: "@ + e@,
        }),
        ({
            let f = secrets_finding(SecretsCheck::Readable { path, mode, keys });
            &&& mode matches Some(m) ==> m != 0o600 ==> f.mark == Mark::Fail && text::contains(
                f.text,
                path@,
            ) && text::contains(f.text, number::octal(m as nat))
            &&& (mode matches Some(m) ==> m == 0o600) ==> f.mark == Mark::Pass && forall|i: int|
                0 <= i < keys@.len() ==> text::contains(f.text, #[trigger] text::quoted(keys@[i]@))
        }),
{
    let a = "No secrets file at "@;
    let b = "\n\t   mkdir -p ~/.config/knowledge-builder && touch '"@;
    let rest = b + path@ + "' && chmod 600 '"@ + path@ + "'"@;
    text_laws::law_parts_are_found(a, path@, rest);
    assert(secrets_finding(SecretsCheck::Missing { path }).text =~= a + path@ + rest);
    let f = secrets_finding(SecretsCheck::Readable { path, mode, keys });
    if mode matches Some(m) && m != 0o600 {
        let m = mode->0;
        let o = number::octal(m as nat);
        let a = "Secrets file '"@;
        let b = "' has permissive mode "@;
        let c = "; run: chmod 600 '"@;
        text_laws::law_parts_are_found(a, path@, b + o + c + path@ + "'"@);
        assert(f.text =~= a + path@ + (b + o + c + path@ + "'"@));
        text_laws::law_parts_are_found(a + path@ + b, o, c + path@ + "'"@);
        assert(f.text =~= a + path@ + b + o + (c + path@ + "'"@));
    } else {
        let qs = crate::doctor::quoted_each(views(keys@));
        let list = text::join(qs, ", "@);
        let a = "Secrets file readable with "@ + number::decimal(keys@.len() as int)
            + " key(s): ["@;
        text_laws::law_parts_are_found(a, list, "]"@);
        assert forall|i: int| 0 <= i < keys@.len() implies text::contains(
            f.text,
            #[trigger] text::quoted(keys@[i]@),
        ) by {
            assert(qs[i] == text::quoted(keys@[i]@));
            lemma_joined(qs, ", "@, i);
            text_laws::law_contains_grows(list, a, qs[i]);
            text_laws::law_contains_grows(a + list, "]"@, qs[i]);
        }
    }
}

proof fn lemma_joined(v: Seq<Seq<char>>, sep: Seq<char>, i: int)
    requires
        0 <= i < v.len(),
    ensures
        text::contains(text::join(v, sep), v[i]),
    decreases v.len(),
{
    let none = Seq::<char>::empty();
    if v.len() == 1 {
        text_laws::law_parts_are_found(none, v[0], none);
        assert(none + v[0] + none =~= v[0]);
    } else if i == v.len() - 1 {
        text_laws::law_parts_are_found(text::join(v.drop_last(), sep) + sep, v[i], none);
        assert(text::join(v.drop_last(), sep) + sep + v[i] + none =~= text::join(v.drop_last(), sep)
            + sep + v[i]);
    } else {
        lemma_joined(v.drop_last(), sep, i);
        text_laws::law_contains_grows(text::join(v.drop_last(), sep), sep, v[i]);
        text_laws::law_contains_grows(text::join(v.drop_last(), sep) + sep, v.last(), v[i]);
    }
}

/// The report has a line for each finding, in the order in which they came, between its
/// first line and what is said at the end. The line holds all that was found.
pub proof fn law_report(fs: Seq<FindingView>, i: int)
    requires
        0 <= i < fs.len(),
    ensures
        report_lines(fs)[0].text == "kb doctor — running pre-flight checks\n"@,
        text::contains(report_lines(fs)[i + 1].text, fs[i].text),
        report_lines(fs)[i + 1].is_error <==> fs[i].mark == Mark::Fail || fs[i].mark == Mark::Note,
        fs[i].mark == Mark::Pass ==> text::contains(report_lines(fs)[i + 1].text, "✓"@),
        fs[i].mark == Mark::Warn ==> text::contains(report_lines(fs)[i + 1].text, "⚠"@),
        fs[i].mark == Mark::Fail ==> text::contains(report_lines(fs)[i + 1].text, "✗"@),
        clean(fs) ==> !report_lines(fs).last().is_error && report_lines(fs).len() == fs.len() + 4,
        !clean(fs) ==> report_lines(fs).last().is_error && report_lines(fs).len() == fs.len() + 3,
{
    let l = finding_line(numbered(fs.take(i + 1)) as int, fs[i]);
    assert(report_lines(fs)[i + 1] == finding_lines(fs)[i]);
    assert(finding_lines(fs)[i] == l);
    let none = Seq::<char>::empty();
    if fs[i].mark == Mark::Note {
        text_laws::law_parts_are_found(none, fs[i].text, none);
        assert(none + fs[i].text + none =~= fs[i].text);
    } else {
        let a = "  ["@ + number::decimal(numbered(fs.take(i + 1)) as int) + "] "@;
        let s = crate::doctor::sign(fs[i].mark);
        text_laws::law_parts_are_found(a, s, "  "@ + fs[i].text);
        assert(a + s + ("  "@ + fs[i].text) =~= l.text);
        text_laws::law_parts_are_found(a + s + "  "@, fs[i].text, none);
        assert(a + s + "  "@ + fs[i].text + none =~= l.text);
    }
}

/// The findings are numbered from one, each by one more than the one before. A remark
/// takes no number.
pub proof fn law_numbers(fs: Seq<FindingView>, f: FindingView)
    ensures
        numbered(Seq::empty()) == 0,
        numbered(fs.push(f)) == numbered(fs) + (if f.mark == Mark::Note {
            0int
        } else {
            1
        }),
        f.mark != Mark::Note ==> text::starts_with(
            report_lines(fs.push(f))[fs.len() as int + 1].text,
            "  ["@ + number::decimal(numbered(fs) as int + 1) + "] "@,
        ),
{
    let all = fs.push(f);
    assert(all.drop_last() =~= fs);
    let i = fs.len() as int;
    assert(all.take(i + 1) =~= all);
    assert(report_lines(all)[i + 1] == finding_lines(all)[i]);
    let h = "  ["@ + number::decimal(numbered(fs) as int + 1) + "] "@;
    if f.mark != Mark::Note {
        let t = h + crate::doctor::sign(f.mark) + "  "@ + f.text;
        assert(finding_lines(all)[i].text == t);
        assert(t.take(h.len() as int) =~= h);
    }
}

} // verus!
