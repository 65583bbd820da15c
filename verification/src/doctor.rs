//! `kb doctor`: what is found, and how it is reported.

use vstd::prelude::*;
use vstd::string::*;

use crate::number;
use crate::number::{count_text, octal_text, unsigned_text};
use crate::text;
use crate::text::{joined, quote, same_text, views};

verus! {

// ---------------------------------------------------------------- findings

/// What a finding means.
#[derive(Debug, Clone, Copy, PartialEq, Eq, Structural)]
pub enum Mark {
    Pass,
    /// Worth a look; the daemon can start.
    Warn,
    Fail,
    /// A remark on the findings before it, with no number of its own.
    Note,
}

/// One finding.
#[derive(Debug, Clone)]
pub struct Finding {
    pub mark: Mark,
    pub text: String,
}

/// One finding, over texts.
pub struct FindingView {
    pub mark: Mark,
    pub text: Seq<char>,
}

pub open spec fn found(mark: Mark, text: Seq<char>) -> FindingView {
    FindingView { mark, text }
}

/// Some findings, over texts.
pub open spec fn findings_view(fs: Seq<Finding>) -> Seq<FindingView> {
    Seq::new(fs.len(), |i: int| found(fs[i].mark, fs[i].text@))
}

/// How many of some findings have a number.
pub open spec fn numbered(fs: Seq<FindingView>) -> nat
    decreases fs.len(),
{
    if fs.len() == 0 {
        0
    } else if fs.last().mark == Mark::Note {
        numbered(fs.drop_last())
    } else {
        numbered(fs.drop_last()) + 1
    }
}

/// Whether nothing failed.
pub open spec fn clean(fs: Seq<FindingView>) -> bool {
    forall|i: int| 0 <= i < fs.len() ==> (#[trigger] fs[i]).mark != Mark::Fail
}

/// A line of the report.
#[derive(Debug, Clone)]
pub struct ReportLine {
    /// Whether it goes to the error output.
    pub is_error: bool,
    pub text: String,
}

/// A line of the report, over texts.
pub struct LineView {
    pub is_error: bool,
    pub text: Seq<char>,
}

/// The lines of a report, over texts.
pub open spec fn lines_view(ls: Seq<ReportLine>) -> Seq<LineView> {
    Seq::new(ls.len(), |i: int| LineView { is_error: ls[i].is_error, text: ls[i].text@ })
}

/// The sign of a finding.
pub open spec fn sign(m: Mark) -> Seq<char> {
    match m {
        Mark::Pass => "✓"@,
        Mark::Warn => "⚠"@,
        Mark::Fail => "✗"@,
        Mark::Note => ""@,
    }
}

/// The line of a finding, given its number.
pub open spec fn finding_line(n: int, f: FindingView) -> LineView {
    match f.mark {
        Mark::Note => LineView { is_error: true, text: f.text },
        _ => LineView {
            is_error: f.mark == Mark::Fail,
            text: "  ["@ + number::decimal(n) + "] "@ + sign(f.mark) + "  "@ + f.text,
        },
    }
}

/// The lines of some findings.
pub open spec fn finding_lines(fs: Seq<FindingView>) -> Seq<LineView> {
    Seq::new(fs.len(), |i: int| finding_line(numbered(fs.take(i + 1)) as int, fs[i]))
}

/// The lines at the end.
pub open spec fn summary_lines(passed: bool) -> Seq<LineView> {
    let out = |t: Seq<char>| LineView { is_error: false, text: t };
    if passed {
        seq![
            out(""@),
            out("✓  All checks passed — daemon is ready to start."@),
            out("   Run: kb daemon --foreground"@),
        ]
    } else {
        seq![
            out(""@),
            LineView {
                is_error: true,
                text: "✗  One or more checks failed. Fix the issues above and re-run `kb doctor`."@,
            },
        ]
    }
}

/// The report on some findings.
pub open spec fn report_lines(fs: Seq<FindingView>) -> Seq<LineView> {
    seq![LineView { is_error: false, text: "kb doctor — running pre-flight checks\n"@ }]
        + finding_lines(fs) + summary_lines(clean(fs))
}

fn sign_of(m: Mark) -> (r: &'static str)
    ensures
        r@ == sign(m),
{
    match m {
        Mark::Pass => "✓",
        Mark::Warn => "⚠",
        Mark::Fail => "✗",
        Mark::Note => "",
    }
}

fn line(out: &mut Vec<ReportLine>, is_error: bool, text: String)
    ensures
        lines_view(final(out)@) == lines_view(old(out)@) + seq![
            (LineView { is_error, text: text@ }),
        ],
{
    let ghost before = lines_view(out@);
    out.push(ReportLine { is_error, text });
    assert(lines_view(out@) =~= before + seq![(LineView { is_error, text: text@ })]);
}

/// Findings as they are made, in order.
#[derive(Debug, Clone)]
pub struct Checker {
    pub findings: Vec<Finding>,
}

impl View for Checker {
    type V = Seq<FindingView>;

    open spec fn view(&self) -> Seq<FindingView> {
        findings_view(self.findings@)
    }
}

impl Checker {
    pub fn new() -> (r: Checker)
        ensures
            r@ == Seq::<FindingView>::empty(),
    {
        let r = Checker { findings: Vec::new() };
        assert(r@ =~= Seq::<FindingView>::empty());
        r
    }

    fn add(&mut self, mark: Mark, text: String)
        ensures
            final(self)@ == old(self)@.push(found(mark, text@)),
    {
        let ghost before = self@;
        self.findings.push(Finding { mark, text });
        assert(self@ =~= before.push(found(mark, text@)));
    }

    /// Notes that a check passed.
    pub fn pass(&mut self, msg: String)
        ensures
            final(self)@ == old(self)@.push(found(Mark::Pass, msg@)),
    {
        self.add(Mark::Pass, msg);
    }

    /// Notes something worth a look.
    pub fn warn(&mut self, msg: String)
        ensures
            final(self)@ == old(self)@.push(found(Mark::Warn, msg@)),
    {
        self.add(Mark::Warn, msg);
    }

    /// Notes that a check failed.
    pub fn fail(&mut self, msg: String)
        ensures
            final(self)@ == old(self)@.push(found(Mark::Fail, msg@)),
    {
        self.add(Mark::Fail, msg);
    }

    /// Whether nothing failed.
    pub fn all_passed(&self) -> (b: bool)
        ensures
            b == clean(self@),
    {
        let ghost fs = self@;
        let mut i: usize = 0;
        while i < self.findings.len()
            invariant
                i <= self.findings@.len(),
                fs == self@,
                forall|j: int| 0 <= j < i ==> (#[trigger] fs[j]).mark != Mark::Fail,
            decreases self.findings@.len() - i,
        {
            if let Mark::Fail = self.findings[i].mark {
                assert(fs[i as int].mark == Mark::Fail);
                return false;
            }
            i = i + 1;
        }
        true
    }

    /// The report: each finding with its number, then the verdict.
    pub fn report(&self) -> (r: Vec<ReportLine>)
        ensures
            lines_view(r@) == report_lines(self@),
    {
        let mut out: Vec<ReportLine> = Vec::new();
        line(&mut out, false, String::from_str("kb doctor — running pre-flight checks\n"));
        let ghost fs = self@;
        let ghost head = lines_view(out@);
        assert(head =~= seq![
            (LineView { is_error: false, text: "kb doctor — running pre-flight checks\n"@ }),
        ]);
        let mut i: usize = 0;
        let mut n: usize = 0;
        assert(fs.take(0) =~= Seq::<FindingView>::empty());
        assert(lines_view(out@) =~= head + finding_lines(fs.take(0)));
        while i < self.findings.len()
            invariant
                i <= self.findings@.len(),
                fs == self@,
                n == numbered(fs.take(i as int)),
                n <= i,
                lines_view(out@) == head + finding_lines(fs.take(i as int)),
            decreases self.findings@.len() - i,
        {
            let ghost before = lines_view(out@);
            let ghost was = fs.take(i as int);
            let ghost next = fs.take(i + 1);
            assert(next.drop_last() =~= was);
            let mark = self.findings[i].mark;
            let ghost f = fs[i as int];
            assert(next.last() == f);
            match mark {
                Mark::Note => {
                    line(&mut out, true, self.findings[i].text.clone());
                },
                _ => {
                    n = n + 1;
                    let mut s = String::from_str("  [");
                    s.append(count_text(n).as_str());
                    s.append("] ");
                    s.append(sign_of(mark));
                    s.append("  ");
                    s.append(self.findings[i].text.as_str());
                    let is_error = match mark {
                        Mark::Fail => true,
                        _ => false,
                    };
                    line(&mut out, is_error, s);
                },
            }
            proof {
                assert(lines_view(out@) == before + seq![finding_line(n as int, f)]);
                lemma_finding_lines(was, f);
                assert(next =~= was.push(f));
                assert(before + seq![finding_line(n as int, f)] =~= head + finding_lines(next));
            }
            i = i + 1;
        }
        assert(fs.take(i as int) =~= fs);
        let ghost body = lines_view(out@);
        line(&mut out, false, String::from_str(""));
        if self.all_passed() {
            line(&mut out, false, String::from_str("✓  All checks passed — daemon is ready to start."));
            line(&mut out, false, String::from_str("   Run: kb daemon --foreground"));
        } else {
            line(
                &mut out,
                true,
                String::from_str(
                    "✗  One or more checks failed. Fix the issues above and re-run `kb doctor`.",
                ),
            );
        }
        assert(lines_view(out@) =~= body + summary_lines(clean(fs)));
        out
    }
}

proof fn lemma_finding_lines(fs: Seq<FindingView>, f: FindingView)
    ensures
        finding_lines(fs.push(f)) == finding_lines(fs).push(
            finding_line(numbered(fs.push(f)) as int, f),
        ),
{
    let next = fs.push(f);
    assert forall|i: int| 0 <= i < fs.len() implies #[trigger] finding_lines(next)[i] == finding_lines(
        fs,
    )[i] by {
        assert(next.take(i + 1) =~= fs.take(i + 1));
    }
    assert(next.take(fs.len() as int + 1) =~= next);
    assert(finding_lines(next) =~= finding_lines(fs).push(finding_line(numbered(next) as int, f)));
}

// ---------------------------------------------------------------- checks

/// What the integrity check of the database gave.
#[derive(Debug, Clone)]
pub enum DatabaseCheck {
    /// There is no database yet.
    Missing,
    /// The first row of the check.
    Row(String),
    CannotOpen(String),
    Panicked(String),
}

/// What was found of the secrets.
#[derive(Debug, Clone)]
pub enum SecretsCheck {
    Missing { path: String },
    Unreadable(String),
    Readable { path: String, mode: Option<u32>, keys: Vec<String> },
}

/// What was found, once the configuration could be read.
#[derive(Debug, Clone)]
pub struct DoctorFacts {
    /// The messages of the configuration errors.
    pub config_errors: Vec<String>,
    pub db_path: String,
    pub database: DatabaseCheck,
    pub log_dir: String,
    /// Why the log directory could not be made.
    pub log_dir_error: Option<String>,
    /// How many days ago the last backup was made.
    pub backup_age_days: Option<u64>,
    pub secrets: SecretsCheck,
}

/// The configuration file as it was found.
#[derive(Debug, Clone)]
pub enum ConfigCheck {
    Unparseable(String),
    Parsed(DoctorFacts),
}

/// A backup older than so many days is worth a warning.
pub const BACKUP_WINDOW_DAYS: u64 = 7;

/// The finding on where the configuration stands.
pub open spec fn place_finding(path: Seq<char>, exists: bool) -> FindingView {
    if exists {
        found(Mark::Pass, "Config file found at "@ + path)
    } else {
        found(
            Mark::Warn,
            "Config file not found at "@ + path + " — built-in defaults will be used."@,
        )
    }
}

/// Each message as a failed check.
pub open spec fn failures(errors: Seq<Seq<char>>) -> Seq<FindingView> {
    Seq::new(errors.len(), |i: int| found(Mark::Fail, errors[i]))
}

/// The findings on the configuration.
pub open spec fn config_findings(errors: Seq<Seq<char>>) -> Seq<FindingView> {
    if errors.len() == 0 {
        seq![found(Mark::Pass, "All 8 configuration checks passed."@)]
    } else {
        failures(errors) + seq![
            found(
                Mark::Note,
                "\n  → "@ + number::decimal(errors.len() as int)
                    + " configuration error(s). Run `kb config validate` for full detail."@,
            ),
        ]
    }
}

/// The finding on the database.
pub open spec fn database_finding(db_path: Seq<char>, c: DatabaseCheck) -> FindingView {
    match c {
        DatabaseCheck::Missing => found(
            Mark::Pass,
            "Database will be created on first daemon start.\n\t   (planned path: "@ + db_path
                + ")"@,
        ),
        DatabaseCheck::Row(s) => if s@ == "ok"@ {
            found(Mark::Pass, "SQLite integrity check passed."@)
        } else {
            found(
                Mark::Fail,
                "SQLite integrity check failed: "@ + s@
                    + "\n\t   Backup the DB immediately; consider `VACUUM INTO backup.db`."@,
            )
        },
        DatabaseCheck::CannotOpen(e) => found(
            Mark::Fail,
            "Cannot open database '"@ + db_path + "': "@ + e@
                + "\n\t   Ensure the path is writable and not locked by another process."@,
        ),
        DatabaseCheck::Panicked(e) => found(
            Mark::Fail,
            "SQLite integrity check task panicked: "@ + e@,
        ),
    }
}

/// The finding on the log directory.
pub open spec fn log_finding(log_dir: Seq<char>, error: Option<Seq<char>>) -> FindingView {
    match error {
        None => found(Mark::Pass, "Log directory is writable: "@ + log_dir),
        Some(e) => found(
            Mark::Fail,
            "Log directory '"@ + log_dir + "' cannot be created: "@ + e,
        ),
    }
}

/// The finding on the last backup.
pub open spec fn backup_finding(age: Option<u64>) -> FindingView {
    match age {
        Some(n) => if n <= BACKUP_WINDOW_DAYS {
            found(
                Mark::Pass,
                "Last backup is "@ + number::decimal(n as int)
                    + " day(s) old — within the 7-day window."@,
            )
        } else {
            found(
                Mark::Warn,
                "Last backup is "@ + number::decimal(n as int)
                    + " day(s) old — older than 7 days; run `kb backup`."@,
            )
        },
        None => found(Mark::Warn, "No backup found — run `kb backup`."@),
    }
}

/// Each of some texts in quotes.
pub open spec fn quoted_each(v: Seq<Seq<char>>) -> Seq<Seq<char>> {
    Seq::new(v.len(), |i: int| text::quoted(v[i]))
}

/// The finding on the secrets: keys are shown, values never.
pub open spec fn secrets_finding(c: SecretsCheck) -> FindingView {
    match c {
        SecretsCheck::Missing { path } => found(
            Mark::Warn,
            "No secrets file at "@ + path@
                + "\n\t   mkdir -p ~/.config/knowledge-builder && touch '"@ + path@
                + "' && chmod 600 '"@ + path@ + "'"@,
        ),
        SecretsCheck::Unreadable(e) => found(Mark::Fail, "Cannot read the secrets file: "@ + e@),
        SecretsCheck::Readable { path, mode, keys } => if mode matches Some(m) && m != 0o600 {
            found(
                Mark::Fail,
                "Secrets file '"@ + path@ + "' has permissive mode "@ + number::octal(
                    mode->0 as nat,
                ) + "; run: chmod 600 '"@ + path@ + "'"@,
            )
        } else {
            found(
                Mark::Pass,
                "Secrets file readable with "@ + number::decimal(keys@.len() as int)
                    + " key(s): ["@ + text::join(quoted_each(views(keys@)), ", "@) + "]"@,
            )
        },
    }
}

/// What is found.
pub open spec fn doctor_findings(path: Seq<char>, exists: bool, c: ConfigCheck) -> Seq<FindingView> {
    match c {
        ConfigCheck::Unparseable(e) => seq![
            place_finding(path, exists),
            found(Mark::Fail, "Cannot parse configuration: "@ + e@),
        ],
        ConfigCheck::Parsed(f) => seq![
            place_finding(path, exists),
            found(Mark::Pass, "Config parsed successfully."@),
        ] + config_findings(views(f.config_errors@)) + seq![
            database_finding(f.db_path@, f.database),
            log_finding(f.log_dir@, crate::json::text_view(f.log_dir_error)),
            backup_finding(f.backup_age_days),
            secrets_finding(f.secrets),
        ],
    }
}

fn check_place(c: &mut Checker, path: &str, exists: bool)
    ensures
        final(c)@ == old(c)@.push(place_finding(path@, exists)),
{
    if exists {
        let mut s = String::from_str("Config file found at ");
        s.append(path);
        c.pass(s);
    } else {
        let mut s = String::from_str("Config file not found at ");
        s.append(path);
        s.append(" — built-in defaults will be used.");
        c.warn(s);
    }
}

fn check_config(c: &mut Checker, errors: &Vec<String>)
    ensures
        final(c)@ == old(c)@ + config_findings(views(errors@)),
{
    let ghost before = c@;
    let ghost es = views(errors@);
    if errors.len() == 0 {
        c.pass(String::from_str("All 8 configuration checks passed."));
        assert(c@ =~= before + config_findings(es));
        return;
    }
    let mut i: usize = 0;
    assert(c@ =~= before + failures(es.take(0)));
    while i < errors.len()
        invariant
            i <= errors@.len(),
            es == views(errors@),
            c@ == before + failures(es.take(i as int)),
        decreases errors@.len() - i,
    {
        c.fail(errors[i].clone());
        i = i + 1;
        assert(c@ =~= before + failures(es.take(i as int)));
    }
    assert(es.take(i as int) =~= es);
    let mut s = String::from_str("\n  → ");
    s.append(count_text(errors.len()).as_str());
    s.append(" configuration error(s). Run `kb config validate` for full detail.");
    c.add(Mark::Note, s);
    assert(c@ =~= before + config_findings(es));
}

fn check_database(c: &mut Checker, db_path: &str, found_db: &DatabaseCheck)
    ensures
        final(c)@ == old(c)@.push(database_finding(db_path@, *found_db)),
{
    match found_db {
        DatabaseCheck::Missing => {
            let mut s = String::from_str(
                "Database will be created on first daemon start.\n\t   (planned path: ",
            );
            s.append(db_path);
            s.append(")");
            c.pass(s);
        },
        DatabaseCheck::Row(row) => {
            if same_text(row.as_str(), "ok") {
                c.pass(String::from_str("SQLite integrity check passed."));
            } else {
                let mut s = String::from_str("SQLite integrity check failed: ");
                s.append(row.as_str());
                s.append("\n\t   Backup the DB immediately; consider `VACUUM INTO backup.db`.");
                c.fail(s);
            }
        },
        DatabaseCheck::CannotOpen(e) => {
            let mut s = String::from_str("Cannot open database '");
            s.append(db_path);
            s.append("': ");
            s.append(e.as_str());
            s.append("\n\t   Ensure the path is writable and not locked by another process.");
            c.fail(s);
        },
        DatabaseCheck::Panicked(e) => {
            let mut s = String::from_str("SQLite integrity check task panicked: ");
            s.append(e.as_str());
            c.fail(s);
        },
    }
}

fn check_log(c: &mut Checker, log_dir: &str, error: &Option<String>)
    ensures
        final(c)@ == old(c)@.push(log_finding(log_dir@, crate::json::text_view(*error))),
{
    match error {
        None => {
            let mut s = String::from_str("Log directory is writable: ");
            s.append(log_dir);
            c.pass(s);
        },
        Some(e) => {
            let mut s = String::from_str("Log directory '");
            s.append(log_dir);
            s.append("' cannot be created: ");
            s.append(e.as_str());
            c.fail(s);
        },
    }
}

fn check_backup(c: &mut Checker, age: Option<u64>)
    ensures
        final(c)@ == old(c)@.push(backup_finding(age)),
{
    match age {
        Some(n) => {
            let mut s = String::from_str("Last backup is ");
            s.append(unsigned_text(n).as_str());
            if n <= BACKUP_WINDOW_DAYS {
                s.append(" day(s) old — within the 7-day window.");
                c.pass(s);
            } else {
                s.append(" day(s) old — older than 7 days; run `kb backup`.");
                c.warn(s);
            }
        },
        None => {
            c.warn(String::from_str("No backup found — run `kb backup`."));
        },
    }
}

fn quoted_list(keys: &Vec<String>) -> (r: String)
    ensures
        r@ == text::join(quoted_each(views(keys@)), ", "@),
{
    let ghost ks = views(keys@);
    let mut q: Vec<String> = Vec::new();
    let mut i: usize = 0;
    assert(views(q@) =~= quoted_each(ks.take(0)));
    while i < keys.len()
        invariant
            i <= keys@.len(),
            ks == views(keys@),
            views(q@) == quoted_each(ks.take(i as int)),
        decreases keys@.len() - i,
    {
        text::add_line(&mut q, quote(keys[i].as_str()));
        i = i + 1;
        assert(views(q@) =~= quoted_each(ks.take(i as int)));
    }
    assert(ks.take(i as int) =~= ks);
    joined(&q, ", ")
}

fn check_secrets(c: &mut Checker, secrets: &SecretsCheck)
    ensures
        final(c)@ == old(c)@.push(secrets_finding(*secrets)),
{
    match secrets {
        SecretsCheck::Missing { path } => {
            let mut s = String::from_str("No secrets file at ");
            s.append(path.as_str());
            s.append("\n\t   mkdir -p ~/.config/knowledge-builder && touch '");
            s.append(path.as_str());
            s.append("' && chmod 600 '");
            s.append(path.as_str());
            s.append("'");
            c.warn(s);
        },
        SecretsCheck::Unreadable(e) => {
            let mut s = String::from_str("Cannot read the secrets file: ");
            s.append(e.as_str());
            c.fail(s);
        },
        SecretsCheck::Readable { path, mode, keys } => {
            match mode {
                Some(m) => {
                    if *m != 0o600 {
                        let mut s = String::from_str("Secrets file '");
                        s.append(path.as_str());
                        s.append("' has permissive mode ");
                        s.append(octal_text(*m).as_str());
                        s.append("; run: chmod 600 '");
                        s.append(path.as_str());
                        s.append("'");
                        c.fail(s);
                        return;
                    }
                },
                None => {},
            }
            let mut s = String::from_str("Secrets file readable with ");
            s.append(count_text(keys.len()).as_str());
            s.append(" key(s): [");
            s.append(quoted_list(keys).as_str());
            s.append("]");
            c.pass(s);
        },
    }
}

/// What is found of the configuration and the environment.
pub fn examine(config_path: &str, config_exists: bool, check: &ConfigCheck) -> (r: Checker)
    ensures
        r@ == doctor_findings(config_path@, config_exists, *check),
{
    let mut c = Checker::new();
    check_place(&mut c, config_path, config_exists);
    match check {
        ConfigCheck::Unparseable(e) => {
            let mut s = String::from_str("Cannot parse configuration: ");
            s.append(e.as_str());
            c.fail(s);
            assert(c@ =~= doctor_findings(config_path@, config_exists, *check));
            c
        },
        ConfigCheck::Parsed(f) => {
            c.pass(String::from_str("Config parsed successfully."));
            let ghost head = c@;
            assert(head =~= seq![
                place_finding(config_path@, config_exists),
                found(Mark::Pass, "Config parsed successfully."@),
            ]);
            check_config(&mut c, &f.config_errors);
            let ghost body = c@;
            check_database(&mut c, f.db_path.as_str(), &f.database);
            check_log(&mut c, f.log_dir.as_str(), &f.log_dir_error);
            check_backup(&mut c, f.backup_age_days);
            check_secrets(&mut c, &f.secrets);
            assert(c@ =~= body + seq![
                database_finding(f.db_path@, f.database),
                log_finding(f.log_dir@, crate::json::text_view(f.log_dir_error)),
                backup_finding(f.backup_age_days),
                secrets_finding(f.secrets),
            ]);
            c
        },
    }
}

/// The exit code: failure where any check failed.
pub fn exit_code(c: &Checker) -> (r: i32)
    ensures
        r == (if clean(c@) {
            0i32
        } else {
            1i32
        }),
{
    if c.all_passed() {
        0
    } else {
        1
    }
}

/// With a secrets file whose mode is known and is not 0600, the checks never pass.
pub proof fn law_open_secrets_fail(path: Seq<char>, exists: bool, f: DoctorFacts, m: u32)
    requires
        f.secrets matches SecretsCheck::Readable { mode, .. } && mode == Some(m),
        m != 0o600,
    ensures
        !clean(doctor_findings(path, exists, ConfigCheck::Parsed(f))),
{
    let fs = doctor_findings(path, exists, ConfigCheck::Parsed(f));
    assert(fs[fs.len() - 1] == secrets_finding(f.secrets));
}

} // verus!
