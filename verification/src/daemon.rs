//! The order in which the daemon starts and stops, and what it does on a signal.

use vstd::prelude::*;
use vstd::string::*;

use crate::event_kind;
use crate::secrets::SecretsLoad;

verus! {

/// How `kb daemon` is run.
#[derive(Debug, Clone)]
pub struct DaemonArgs {
    /// Whether the log goes to the terminal too.
    pub foreground: bool,
}

/// How long the daemon waits for a task to stop, in seconds.
pub const STOP_WAIT_SECS: u64 = 5;

/// How long the daemon waits for running jobs to end, in seconds.
pub const DRAIN_BUDGET_SECS: u64 = 30;

/// How often the daemon looks whether jobs still run, in milliseconds.
pub const DRAIN_POLL_MILLIS: u64 = 500;

// ---------------------------------------------------------------- steps

/// What the daemon does, one thing after the other.
#[derive(Debug, Clone, Copy, PartialEq, Eq, Structural)]
pub enum Step {
    LoadConfig,
    InitLogging,
    AcquireLock,
    OpenStore,
    RecordStarted,
    /// Jobs that a crash left in processing are queued again.
    Recover,
    StartPipeline,
    CompileGlobs,
    StartScanner,
    LoadSecrets,
    StartPool,
    AwaitSignal,
    RecordStopping,
    /// Every task and every processor is told to stop.
    Cancel,
    AwaitPool,
    DrainJobs,
    AwaitPipeline,
    AwaitScanner,
    /// Jobs that still run are queued again.
    ResetJobs,
    ReleaseLock,
}

/// The steps, in order.
pub open spec fn order() -> Seq<Step> {
    seq![
        Step::LoadConfig,
        Step::InitLogging,
        Step::AcquireLock,
        Step::OpenStore,
        Step::RecordStarted,
        Step::Recover,
        Step::StartPipeline,
        Step::CompileGlobs,
        Step::StartScanner,
        Step::LoadSecrets,
        Step::StartPool,
        Step::AwaitSignal,
        Step::RecordStopping,
        Step::Cancel,
        Step::AwaitPool,
        Step::DrainJobs,
        Step::AwaitPipeline,
        Step::AwaitScanner,
        Step::ResetJobs,
        Step::ReleaseLock,
    ]
}

/// The step after `s`, where there is one.
pub open spec fn following(s: Step) -> Option<Step> {
    match s {
        Step::LoadConfig => Some(Step::InitLogging),
        Step::InitLogging => Some(Step::AcquireLock),
        Step::AcquireLock => Some(Step::OpenStore),
        Step::OpenStore => Some(Step::RecordStarted),
        Step::RecordStarted => Some(Step::Recover),
        Step::Recover => Some(Step::StartPipeline),
        Step::StartPipeline => Some(Step::CompileGlobs),
        Step::CompileGlobs => Some(Step::StartScanner),
        Step::StartScanner => Some(Step::LoadSecrets),
        Step::LoadSecrets => Some(Step::StartPool),
        Step::StartPool => Some(Step::AwaitSignal),
        Step::AwaitSignal => Some(Step::RecordStopping),
        Step::RecordStopping => Some(Step::Cancel),
        Step::Cancel => Some(Step::AwaitPool),
        Step::AwaitPool => Some(Step::DrainJobs),
        Step::DrainJobs => Some(Step::AwaitPipeline),
        Step::AwaitPipeline => Some(Step::AwaitScanner),
        Step::AwaitScanner => Some(Step::ResetJobs),
        Step::ResetJobs => Some(Step::ReleaseLock),
        Step::ReleaseLock => None,
    }
}

/// Whether the daemon stops where a step fails.
pub open spec fn fatal(s: Step) -> bool {
    match s {
        Step::LoadConfig => true,
        Step::InitLogging => true,
        Step::AcquireLock => true,
        Step::OpenStore => true,
        Step::Recover => true,
        Step::StartPipeline => true,
        Step::CompileGlobs => true,
        Step::LoadSecrets => true,
        _ => false,
    }
}

/// What the daemon says where it stops at a step, ahead of the cause.
pub open spec fn fatal_context(s: Step) -> Option<Seq<char>> {
    match s {
        Step::LoadConfig => Some(
            "Failed to start daemon: configuration is invalid.\nRun `kb doctor` for a detailed diagnosis."@,
        ),
        Step::InitLogging => Some("Failed to initialise logging"@),
        Step::OpenStore => Some("Failed to open state store"@),
        Step::Recover => Some("Crash recovery failed"@),
        Step::StartPipeline => Some("Failed to build detection pipeline"@),
        Step::CompileGlobs => Some("Failed to compile ignore_glob patterns from config"@),
        _ => None,
    }
}

/// Why the daemon stopped before it was told to.
#[derive(Debug, Clone)]
pub struct DaemonError {
    /// What was tried, where the cause does not say it.
    pub context: Option<String>,
    pub cause: String,
}

/// What comes after a step.
#[derive(Debug, Clone)]
pub enum Verdict {
    Go(Step),
    Finished,
    Stop(DaemonError),
}

/// The step after one that did not stop the daemon.
pub open spec fn goes_on(s: Step, v: Verdict) -> bool {
    match following(s) {
        Some(next) => v matches Verdict::Go(t) && t == next,
        None => v is Finished,
    }
}

/// Whether `v` is what comes after the step `s` with the given outcome.
pub open spec fn is_verdict(s: Step, outcome: Result<(), Seq<char>>, v: Verdict) -> bool {
    if fatal(s) && outcome is Err {
        v matches Verdict::Stop(e) && e.cause@ == outcome->Err_0 && crate::json::text_view(e.context)
            == fatal_context(s)
    } else {
        goes_on(s, v)
    }
}

/// The outcome of a step, its message as a text.
pub open spec fn outcome_view(o: Result<(), String>) -> Result<(), Seq<char>> {
    match o {
        Ok(_) => Ok(()),
        Err(e) => Err(e@),
    }
}

fn following_of(s: Step) -> (r: Option<Step>)
    ensures
        r == following(s),
{
    match s {
        Step::LoadConfig => Some(Step::InitLogging),
        Step::InitLogging => Some(Step::AcquireLock),
        Step::AcquireLock => Some(Step::OpenStore),
        Step::OpenStore => Some(Step::RecordStarted),
        Step::RecordStarted => Some(Step::Recover),
        Step::Recover => Some(Step::StartPipeline),
        Step::StartPipeline => Some(Step::CompileGlobs),
        Step::CompileGlobs => Some(Step::StartScanner),
        Step::StartScanner => Some(Step::LoadSecrets),
        Step::LoadSecrets => Some(Step::StartPool),
        Step::StartPool => Some(Step::AwaitSignal),
        Step::AwaitSignal => Some(Step::RecordStopping),
        Step::RecordStopping => Some(Step::Cancel),
        Step::Cancel => Some(Step::AwaitPool),
        Step::AwaitPool => Some(Step::DrainJobs),
        Step::DrainJobs => Some(Step::AwaitPipeline),
        Step::AwaitPipeline => Some(Step::AwaitScanner),
        Step::AwaitScanner => Some(Step::ResetJobs),
        Step::ResetJobs => Some(Step::ReleaseLock),
        Step::ReleaseLock => None,
    }
}

fn is_fatal(s: Step) -> (b: bool)
    ensures
        b == fatal(s),
{
    match s {
        Step::LoadConfig => true,
        Step::InitLogging => true,
        Step::AcquireLock => true,
        Step::OpenStore => true,
        Step::Recover => true,
        Step::StartPipeline => true,
        Step::CompileGlobs => true,
        Step::LoadSecrets => true,
        _ => false,
    }
}

fn fatal_context_of(s: Step) -> (r: Option<String>)
    ensures
        crate::json::text_view(r) == fatal_context(s),
{
    match s {
        Step::LoadConfig => Some(
            String::from_str(
                "Failed to start daemon: configuration is invalid.\nRun `kb doctor` for a detailed diagnosis.",
            ),
        ),
        Step::InitLogging => Some(String::from_str("Failed to initialise logging")),
        Step::OpenStore => Some(String::from_str("Failed to open state store")),
        Step::Recover => Some(String::from_str("Crash recovery failed")),
        Step::StartPipeline => Some(String::from_str("Failed to build detection pipeline")),
        Step::CompileGlobs => Some(
            String::from_str("Failed to compile ignore_glob patterns from config"),
        ),
        _ => None,
    }
}

/// What comes after a step: the next one, or the end where the step had to succeed
/// and did not.
pub fn after_step(s: Step, outcome: Result<(), String>) -> (v: Verdict)
    ensures
        is_verdict(s, outcome_view(outcome), v),
        match v {
            Verdict::Go(next) => step_after(s, outcome is Ok) == Some(next),
            _ => step_after(s, outcome is Ok) is None,
        },
{
    if let Err(cause) = outcome {
        if is_fatal(s) {
            return Verdict::Stop(DaemonError { context: fatal_context_of(s), cause });
        }
    }
    match following_of(s) {
        Some(next) => Verdict::Go(next),
        None => Verdict::Finished,
    }
}

/// What the daemon writes to the terminal after a step.
pub open spec fn announcement(s: Step, foreground: bool, vault_root: Seq<char>) -> Option<Seq<char>> {
    if !foreground {
        None
    } else {
        match s {
            Step::StartPool => Some(
                "Knowledge Builder daemon started  (vault="@ + vault_root + ")  — Ctrl-C to stop"@,
            ),
            Step::AwaitSignal => Some("\nShutting down..."@),
            Step::ReleaseLock => Some("Daemon stopped cleanly"@),
            _ => None,
        }
    }
}

/// What the daemon writes to the terminal after a step.
pub fn announce(s: Step, args: &DaemonArgs, vault_root: &str) -> (r: Option<String>)
    ensures
        crate::json::text_view(r) == announcement(s, args.foreground, vault_root@),
{
    if !args.foreground {
        return None;
    }
    match s {
        Step::StartPool => {
            let mut t = String::from_str("Knowledge Builder daemon started  (vault=");
            t.append(vault_root);
            t.append(")  — Ctrl-C to stop");
            Some(t)
        },
        Step::AwaitSignal => Some(String::from_str("\nShutting down...")),
        Step::ReleaseLock => Some(String::from_str("Daemon stopped cleanly")),
        _ => None,
    }
}

/// What the audit log is told at a step: the kind of the event and its message.
pub open spec fn audit_note_of(s: Step) -> Option<(Seq<char>, Seq<char>)> {
    match s {
        Step::RecordStarted => Some((event_kind::DAEMON_STARTED@, "daemon started"@)),
        Step::RecordStopping => Some((event_kind::DAEMON_STOPPING@, "daemon stopping"@)),
        _ => None,
    }
}

/// What the audit log is told at a step: the kind of the event and its message.
pub fn audit_note(s: Step) -> (r: Option<(&'static str, &'static str)>)
    ensures
        match r {
            Some(n) => audit_note_of(s) == Some((n.0@, n.1@)),
            None => audit_note_of(s) is None,
        },
{
    match s {
        Step::RecordStarted => Some((event_kind::DAEMON_STARTED, "daemon started")),
        Step::RecordStopping => Some((event_kind::DAEMON_STOPPING, "daemon stopping")),
        _ => None,
    }
}

/// The outcome of loading the secrets: a file that group or others can reach stops
/// the daemon; one that could not be read does not.
pub fn secrets_outcome(load: &Result<SecretsLoad, String>) -> (r: Result<(), String>)
    ensures
        match (*load, r) {
            (Ok(l), Ok(_)) => l.refusal_text() is None,
            (Ok(l), Err(e)) => l.refusal_text() == Some(e@),
            (Err(_), Ok(_)) => true,
            (Err(_), Err(_)) => false,
        },
{
    match load {
        Ok(l) => match l.refusal() {
            Some(m) => Err(m),
            None => Ok(()),
        },
        Err(_) => Ok(()),
    }
}

// ---------------------------------------------------------------- draining

/// What to do while jobs run at shutdown.
#[derive(Debug, Clone, Copy, PartialEq, Eq, Structural)]
pub enum Drain {
    /// No job runs any more.
    Drained,
    /// The budget is spent, and so many jobs still run.
    TimedOut(i64),
    /// The number of jobs is not known; the shutdown proceeds.
    Unknown,
    /// Look again after the poll interval.
    PollAgain,
}

/// What to do, given how many jobs run, where that is known, and whether the budget is
/// spent.
pub open spec fn drain_of(processing: Option<i64>, spent: bool) -> Drain {
    match processing {
        Some(n) => if n == 0 {
            Drain::Drained
        } else if spent {
            Drain::TimedOut(n)
        } else {
            Drain::PollAgain
        },
        None => Drain::Unknown,
    }
}

/// What to do, given how many jobs run, where that is known, and whether the budget is
/// spent.
pub fn drain_step(processing: Option<i64>, spent: bool) -> (r: Drain)
    ensures
        r == drain_of(processing, spent),
{
    match processing {
        Some(n) => if n == 0 {
            Drain::Drained
        } else if spent {
            Drain::TimedOut(n)
        } else {
            Drain::PollAgain
        },
        None => Drain::Unknown,
    }
}

// ---------------------------------------------------------------- signals

/// A signal that the daemon waits for.
#[derive(Debug, Clone, Copy, PartialEq, Eq, Structural)]
pub enum Signal {
    Terminate,
    Interrupt,
    Hangup,
}

/// How the daemon waits for signals.
#[derive(Debug, Clone, Copy, PartialEq, Eq, Structural)]
pub enum SignalPlan {
    /// No handler for interrupts: the runtime's own wait for Ctrl-C.
    CtrlC,
    /// No handler for termination: interrupts alone.
    InterruptOnly,
    /// No handler for hangups.
    WithoutHangup,
    All,
}

/// How the daemon waits, given which handlers could be installed.
pub open spec fn plan_of(interrupt: bool, terminate: bool, hangup: bool) -> SignalPlan {
    if !interrupt {
        SignalPlan::CtrlC
    } else if !terminate {
        SignalPlan::InterruptOnly
    } else if !hangup {
        SignalPlan::WithoutHangup
    } else {
        SignalPlan::All
    }
}

/// How the daemon waits, given which handlers could be installed.
pub fn signal_plan(interrupt: bool, terminate: bool, hangup: bool) -> (r: SignalPlan)
    ensures
        r == plan_of(interrupt, terminate, hangup),
{
    if !interrupt {
        SignalPlan::CtrlC
    } else if !terminate {
        SignalPlan::InterruptOnly
    } else if !hangup {
        SignalPlan::WithoutHangup
    } else {
        SignalPlan::All
    }
}

/// Whether a plan hears a signal.
pub open spec fn hears(p: SignalPlan, s: Signal) -> bool {
    match s {
        Signal::Interrupt => true,
        Signal::Terminate => p == SignalPlan::WithoutHangup || p == SignalPlan::All,
        Signal::Hangup => p == SignalPlan::All,
    }
}

/// Whether the daemon shuts down: on a termination or an interrupt that it hears. A
/// hangup is noted, and the daemon runs on.
pub open spec fn stops(p: SignalPlan, s: Signal) -> bool {
    hears(p, s) && s != Signal::Hangup
}

/// Whether the daemon shuts down on a signal.
pub fn stops_on(p: SignalPlan, s: Signal) -> (b: bool)
    ensures
        b == stops(p, s),
{
    match s {
        Signal::Interrupt => true,
        Signal::Terminate => match p {
            SignalPlan::WithoutHangup => true,
            SignalPlan::All => true,
            _ => false,
        },
        Signal::Hangup => false,
    }
}

/// The signal that is taken first where several have come.
pub open spec fn first_of(terminate: bool, interrupt: bool, hangup: bool) -> Option<Signal> {
    if terminate {
        Some(Signal::Terminate)
    } else if interrupt {
        Some(Signal::Interrupt)
    } else if hangup {
        Some(Signal::Hangup)
    } else {
        None
    }
}

/// The signal that is taken first where several have come.
pub fn first_signal(terminate: bool, interrupt: bool, hangup: bool) -> (r: Option<Signal>)
    ensures
        r == first_of(terminate, interrupt, hangup),
{
    if terminate {
        Some(Signal::Terminate)
    } else if interrupt {
        Some(Signal::Interrupt)
    } else if hangup {
        Some(Signal::Hangup)
    } else {
        None
    }
}

// ---------------------------------------------------------------- laws

/// The step after `s`, given whether `s` succeeded; none where the daemon has ended.
pub open spec fn step_after(s: Step, ok: bool) -> Option<Step> {
    if fatal(s) && !ok {
        None
    } else {
        following(s)
    }
}

/// The steps that the daemon takes from `from` on, given which of them succeed.
pub open spec fn steps_taken(from: Step, oks: Seq<bool>) -> Seq<Step>
    decreases oks.len(),
{
    if oks.len() == 0 {
        seq![]
    } else {
        seq![from] + match step_after(from, oks[0]) {
            Some(next) => steps_taken(next, oks.skip(1)),
            None => seq![],
        }
    }
}

/// The place of a step in the order.
pub open spec fn place(s: Step) -> int {
    match s {
        Step::LoadConfig => 0,
        Step::InitLogging => 1,
        Step::AcquireLock => 2,
        Step::OpenStore => 3,
        Step::RecordStarted => 4,
        Step::Recover => 5,
        Step::StartPipeline => 6,
        Step::CompileGlobs => 7,
        Step::StartScanner => 8,
        Step::LoadSecrets => 9,
        Step::StartPool => 10,
        Step::AwaitSignal => 11,
        Step::RecordStopping => 12,
        Step::Cancel => 13,
        Step::AwaitPool => 14,
        Step::DrainJobs => 15,
        Step::AwaitPipeline => 16,
        Step::AwaitScanner => 17,
        Step::ResetJobs => 18,
        Step::ReleaseLock => 19,
    }
}

proof fn lemma_place(s: Step)
    ensures
        0 <= place(s) < order().len(),
        order()[place(s)] == s,
        following(s) matches Some(n) ==> place(n) == place(s) + 1,
        following(s) is None <==> place(s) == order().len() - 1,
{
}

proof fn lemma_steps(from: Step, oks: Seq<bool>)
    ensures
        place(from) + steps_taken(from, oks).len() <= order().len(),
        steps_taken(from, oks).len() <= oks.len(),
        forall|i: int|
            0 <= i < steps_taken(from, oks).len() ==> #[trigger] steps_taken(from, oks)[i]
                == order()[place(from) + i],
        forall|i: int|
            #![trigger oks[i]]
            0 <= i < steps_taken(from, oks).len() - 1 && fatal(order()[place(from) + i]) ==> oks[i],
        steps_taken(from, oks).len() < oks.len() && place(from) + steps_taken(from, oks).len()
            < order().len() ==> {
            let last = steps_taken(from, oks).len() - 1;
            last >= 0 && fatal(order()[place(from) + last]) && !oks[last]
        },
    decreases oks.len(),
{
    lemma_place(from);
    let all = steps_taken(from, oks);
    if oks.len() > 0 {
        match step_after(from, oks[0]) {
            Some(next) => {
                let rest = steps_taken(next, oks.skip(1));
                lemma_place(next);
                lemma_steps(next, oks.skip(1));
                assert(all == seq![from] + rest);
                assert forall|i: int| 0 <= i < all.len() implies #[trigger] all[i]
                    == order()[place(from) + i] by {
                    if i > 0 {
                        assert(all[i] == rest[i - 1]);
                    }
                }
                assert forall|i: int|
                    #![trigger oks[i]]
                    0 <= i < all.len() - 1 && fatal(order()[place(from) + i]) implies oks[i] by {
                    if i > 0 {
                        assert(oks.skip(1)[i - 1] == oks[i]);
                    }
                }
                if all.len() < oks.len() && place(from) + all.len() < order().len() {
                    let last = rest.len() - 1;
                    assert(oks.skip(1)[last] == oks[last + 1]);
                }
            },
            None => {
                assert(all =~= seq![from]);
            },
        }
    }
}

/// The daemon takes its steps in the one order, each at most once, whatever fails.
pub proof fn law_steps_in_order(oks: Seq<bool>)
    ensures
        steps_taken(Step::LoadConfig, oks).len() <= order().len(),
        steps_taken(Step::LoadConfig, oks) == order().take(
            steps_taken(Step::LoadConfig, oks).len() as int,
        ),
{
    lemma_steps(Step::LoadConfig, oks);
    assert(steps_taken(Step::LoadConfig, oks) =~= order().take(
        steps_taken(Step::LoadConfig, oks).len() as int,
    ));
}

/// No worker starts before the lock is held, the jobs of a crash are recovered and
/// the secrets are accepted.
pub proof fn law_workers_start_last(oks: Seq<bool>)
    requires
        steps_taken(Step::LoadConfig, oks).contains(Step::StartPool),
    ensures
        forall|s: Step|
            fatal(s) ==> place(s) < place(Step::StartPool) && oks[#[trigger] place(s)]
                && steps_taken(Step::LoadConfig, oks)[place(s)] == s,
{
    let all = steps_taken(Step::LoadConfig, oks);
    lemma_steps(Step::LoadConfig, oks);
    let k = choose|k: int| 0 <= k < all.len() && all[k] == Step::StartPool;
    assert(order()[k] == Step::StartPool);
    assert(k == 10);
    assert forall|s: Step| fatal(s) implies place(s) < place(Step::StartPool) && oks[#[trigger] place(
        s,
    )] && all[place(s)] == s by {
        lemma_place(s);
        assert(all[place(s)] == order()[place(s)]);
    }
}

/// A daemon that was told to stop always comes to release its lock, whatever fails on
/// the way.
pub proof fn law_shutdown_completes(oks: Seq<bool>)
    requires
        steps_taken(Step::LoadConfig, oks).contains(Step::AwaitSignal),
        oks.len() >= order().len(),
    ensures
        steps_taken(Step::LoadConfig, oks) == order(),
        steps_taken(Step::LoadConfig, oks).last() == Step::ReleaseLock,
{
    let all = steps_taken(Step::LoadConfig, oks);
    lemma_steps(Step::LoadConfig, oks);
    let k = choose|k: int| 0 <= k < all.len() && all[k] == Step::AwaitSignal;
    assert(order()[k] == Step::AwaitSignal);
    assert(k == 11);
    assert(all.len() > 11);
    if all.len() < order().len() {
        let last = all.len() - 1;
        assert(!fatal(order()[last]));
    }
    assert(all =~= order());
}

/// A daemon that ends before it was told to stop ends at a step that had to succeed
/// and did not.
pub proof fn law_early_end_is_a_failure(oks: Seq<bool>)
    requires
        oks.len() >= order().len(),
        steps_taken(Step::LoadConfig, oks).len() < order().len(),
    ensures
        steps_taken(Step::LoadConfig, oks).len() > 0,
        fatal(steps_taken(Step::LoadConfig, oks).last()),
        !oks[steps_taken(Step::LoadConfig, oks).len() - 1],
{
    lemma_steps(Step::LoadConfig, oks);
}

} // verus!
