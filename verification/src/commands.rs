//! The smaller commands: what they are asked for and what they say.

use vstd::prelude::*;
use vstd::string::*;

use crate::display::{age_text, fmt_age};
use crate::link_sweeper::RelinkStats;
use crate::number;
use crate::number::{count_text, integer_text, unsigned_text};
use crate::paths;
use crate::paths::join_path;
use crate::text;
use crate::text::{add_fixed, add_line, views};
use crate::types::Stats;

verus! {

// ---------------------------------------------------------------- config

/// What `kb config` is asked for.
#[derive(Debug, Clone)]
pub struct ConfigArgs {
    pub action: Option<ConfigAction>,
}

/// What `kb config` does.
#[derive(Debug, Clone, Copy, PartialEq, Eq, Structural)]
pub enum ConfigAction {
    Show,
    Path,
    Validate,
}

/// What `kb config` does: it shows the configuration unless told otherwise.
pub fn config_action(args: &ConfigArgs) -> (r: ConfigAction)
    ensures
        r == match args.action {
            Some(a) => a,
            None => ConfigAction::Show,
        },
{
    match args.action {
        Some(a) => a,
        None => ConfigAction::Show,
    }
}

/// What `kb config path` says.
pub open spec fn path_lines(path: Seq<char>, exists: bool) -> Seq<Seq<char>> {
    seq![
        path,
        if exists {
            "  (exists — will be loaded)"@
        } else {
            "  (not found — built-in defaults will be used; create this file to override)"@
        },
    ]
}

/// What `kb config path` says.
pub fn config_path_report(path: &str, exists: bool) -> (r: Vec<String>)
    ensures
        views(r@) == path_lines(path@, exists),
{
    let mut out: Vec<String> = Vec::new();
    add_fixed(&mut out, path);
    if exists {
        add_fixed(&mut out, "  (exists — will be loaded)");
    } else {
        add_fixed(
            &mut out,
            "  (not found — built-in defaults will be used; create this file to override)",
        );
    }
    assert(views(out@) =~= path_lines(path@, exists));
    out
}

/// What `kb config validate` says behind the errors.
pub fn fix_hint(count: usize) -> (r: String)
    ensures
        r@ == "Fix the "@ + number::decimal(count as int)
            + " error(s) above, then re-run `kb config validate`."@,
{
    let mut s = String::from_str("Fix the ");
    s.append(count_text(count).as_str());
    s.append(" error(s) above, then re-run `kb config validate`.");
    s
}

// ---------------------------------------------------------------- rows

/// A count under its name, with blanks before the next one.
pub open spec fn counted(name: Seq<char>, n: i64) -> Seq<char> {
    name + ": "@ + number::decimal(n as int) + "  "@
}

fn add_count(s: &mut String, name: &str, n: i64)
    ensures
        final(s)@ == old(s)@ + counted(name@, n),
{
    s.append(name);
    s.append(": ");
    s.append(integer_text(n).as_str());
    s.append("  ");
    assert(s@ =~= old(s)@ + counted(name@, n));
}

/// The queue in one line.
pub open spec fn status_text(s: Stats) -> Seq<char> {
    counted("seen"@, s.seen) + counted("queued"@, s.queued) + counted("processing"@, s.processing)
        + counted("done"@, s.done) + counted("failed"@, s.failed) + counted("skipped"@, s.skipped)
        + counted("depth"@, s.queue_depth) + "oldest pending: "@ + (match s.oldest_pending_age_secs {
        Some(a) => age_text(a as int),
        None => "—"@,
    }) + "  last error: "@ + (match s.last_error {
        Some(e) => e@,
        None => "—"@,
    })
}

/// What `kb status` says: the counts per status, the depth of the queue, the age of
/// the oldest pending row and the last error.
pub fn status_line(s: &Stats) -> (r: String)
    ensures
        r@ == status_text(*s),
{
    let mut r = String::new();
    add_count(&mut r, "seen", s.seen);
    add_count(&mut r, "queued", s.queued);
    add_count(&mut r, "processing", s.processing);
    add_count(&mut r, "done", s.done);
    add_count(&mut r, "failed", s.failed);
    add_count(&mut r, "skipped", s.skipped);
    add_count(&mut r, "depth", s.queue_depth);
    r.append("oldest pending: ");
    match s.oldest_pending_age_secs {
        Some(a) => r.append(fmt_age(a).as_str()),
        None => r.append("—"),
    }
    r.append("  last error: ");
    match &s.last_error {
        Some(e) => r.append(e.as_str()),
        None => r.append("—"),
    }
    assert(r@ =~= status_text(*s));
    r
}

/// What `kb list` is asked for.
#[derive(Debug, Clone)]
pub struct ListArgs {
    pub status: Option<String>,
    pub limit: usize,
}

/// How many rows `kb list` shows unless told otherwise.
pub const LIST_LIMIT: usize = 50;

/// What `kb requeue` is asked for.
#[derive(Debug, Clone)]
pub struct RequeueArgs {
    /// A path or the id of a row.
    pub target: String,
}

/// What `kb requeue` says ahead: where the row is queued already.
pub fn requeue_note(path: &str, status: crate::types::Status) -> (r: Option<String>)
    ensures
        match r {
            Some(s) => status == crate::types::Status::Queued && s@ == "Note: "@ + path@
                + " is already queued (attempts and backoff window will still be reset)."@,
            None => status != crate::types::Status::Queued,
        },
{
    match status {
        crate::types::Status::Queued => {
            let mut s = String::from_str("Note: ");
            s.append(path);
            s.append(" is already queued (attempts and backoff window will still be reset).");
            Some(s)
        },
        _ => None,
    }
}

/// What `kb requeue` says at its end.
pub fn requeued(path: &str, previous_status: &str) -> (r: String)
    ensures
        r@ == "Requeued: "@ + path@ + " (was: "@ + previous_status@ + ")"@,
{
    let mut s = String::from_str("Requeued: ");
    s.append(path);
    s.append(" (was: ");
    s.append(previous_status);
    s.append(")");
    s
}

/// What `kb reset` is asked for.
#[derive(Debug, Clone)]
pub struct ResetArgs {
    /// A path or the id of a row.
    pub target: String,
}

/// What `kb reset` says at its end.
pub fn reset_done(path: &str, outputs: u64) -> (r: String)
    ensures
        r@ == "Reset: "@ + path@ + " - row and "@ + number::decimal(outputs as int) + " "@ + (
        if outputs == 1 {
            "output"@
        } else {
            "outputs"@
        }) + " removed.\nFile will be re-discovered on next scan."@,
{
    let mut s = String::from_str("Reset: ");
    s.append(path);
    s.append(" - row and ");
    s.append(unsigned_text(outputs).as_str());
    s.append(" ");
    if outputs == 1 {
        s.append("output");
    } else {
        s.append("outputs");
    }
    s.append(" removed.\nFile will be re-discovered on next scan.");
    s
}

// ---------------------------------------------------------------- uninstall

/// The name of the service.
pub const LABEL: &'static str = "com.user.knowledge-builder";

/// The file that describes the service.
pub const PLIST_FILENAME: &'static str = "com.user.knowledge-builder.plist";

/// The service of a user.
pub fn service_of(uid: u64) -> (r: String)
    ensures
        r@ == "gui/"@ + number::decimal(uid as int) + "/"@ + LABEL@,
{
    let mut s = String::from_str("gui/");
    s.append(unsigned_text(uid).as_str());
    s.append("/");
    s.append(LABEL);
    s
}

/// Where the description of the service stands.
pub fn plist_path(home: &str) -> (r: String)
    ensures
        r@ == paths::join(
            paths::join(paths::join(home@, "Library"@), "LaunchAgents"@),
            PLIST_FILENAME@,
        ),
{
    let library = join_path(home, "Library");
    let agents = join_path(library.as_str(), "LaunchAgents");
    join_path(agents.as_str(), PLIST_FILENAME)
}

/// What is said of stopping the service; a failure does not end the command.
pub open spec fn bootout_lines(service: Seq<char>, error: Option<Seq<char>>) -> Seq<Seq<char>> {
    match error {
        None => seq!["  ✓  Booted out     : launchctl bootout "@ + service],
        Some(e) => seq![
            "  (launchctl bootout returned an error — "@ + e + ")"@,
            "  (Continuing; service may not have been registered)"@,
        ],
    }
}

/// What is said of stopping the service.
pub fn bootout_report(service: &str, error: &Option<String>) -> (r: Vec<String>)
    ensures
        views(r@) == bootout_lines(service@, crate::json::text_view(*error)),
{
    let mut out: Vec<String> = Vec::new();
    match error {
        None => {
            let mut s = String::from_str("  ✓  Booted out     : launchctl bootout ");
            s.append(service);
            add_line(&mut out, s);
        },
        Some(e) => {
            let mut s = String::from_str("  (launchctl bootout returned an error — ");
            s.append(e.as_str());
            s.append(")");
            add_line(&mut out, s);
            add_fixed(&mut out, "  (Continuing; service may not have been registered)");
        },
    }
    assert(views(out@) =~= bootout_lines(service@, crate::json::text_view(*error)));
    out
}

/// What is said at the end, given whether the description was there and is removed.
pub open spec fn uninstalled_lines(plist: Seq<char>, removed: bool) -> Seq<Seq<char>> {
    seq![
        if removed {
            "  ✓  Removed plist  : "@ + plist
        } else {
            "  (Plist not found at "@ + plist + " — nothing to remove)"@
        },
        ""@,
        "✓  Knowledge Builder uninstalled."@,
        "   Your data (SQLite DB, processed vault notes) is untouched."@,
        "   Run `kb install` to re-register the service at any time."@,
    ]
}

/// What is said at the end, given whether the description was there and is removed.
pub fn uninstalled_report(plist: &str, removed: bool) -> (r: Vec<String>)
    ensures
        views(r@) == uninstalled_lines(plist@, removed),
{
    let mut out: Vec<String> = Vec::new();
    if removed {
        let mut s = String::from_str("  ✓  Removed plist  : ");
        s.append(plist);
        add_line(&mut out, s);
    } else {
        let mut s = String::from_str("  (Plist not found at ");
        s.append(plist);
        s.append(" — nothing to remove)");
        add_line(&mut out, s);
    }
    add_fixed(&mut out, "");
    add_fixed(&mut out, "✓  Knowledge Builder uninstalled.");
    add_fixed(&mut out, "   Your data (SQLite DB, processed vault notes) is untouched.");
    add_fixed(&mut out, "   Run `kb install` to re-register the service at any time.");
    assert(views(out@) =~= uninstalled_lines(plist@, removed));
    out
}

// ---------------------------------------------------------------- relink

/// What `kb relink` is asked for.
#[derive(Debug, Clone)]
pub struct RelinkArgs {
    /// Whether nothing is written.
    pub dry_run: bool,
    /// The directory of the agent's notes, where not the configured one.
    pub agent_root: Option<String>,
    /// The directory to look through, where not all of the notes.
    pub root: Option<String>,
}

/// Where `kb relink` looks: through `walk`, for notes below `agent`.
#[derive(Debug, Clone)]
pub struct RelinkPlaces {
    pub agent: String,
    pub walk: String,
}

/// The directory of the agent's notes.
pub open spec fn relink_agent(args: RelinkArgs, configured: Seq<char>) -> Seq<char> {
    match args.agent_root {
        Some(p) => p@,
        None => configured,
    }
}

/// Where `kb relink` looks, or why it does not: `agent_exists` and `root_exists` say
/// what is on disk of the two directories.
pub fn relink_places(args: &RelinkArgs, configured: &str, agent_exists: bool, root_exists: bool) -> (r:
    Result<RelinkPlaces, String>)
    ensures
        match r {
            Ok(p) => {
                &&& agent_exists
                &&& p.agent@ == relink_agent(*args, configured@)
                &&& match args.root {
                    Some(w) => root_exists && p.walk@ == w@,
                    None => p.walk@ == p.agent@,
                }
            },
            Err(e) => {
                ||| !agent_exists && e@ == "agent_root "@ + relink_agent(*args, configured@)
                    + " does not exist on disk; pass --agent-root to override or fix paths.agent_root in config.toml."@
                ||| agent_exists && !root_exists && args.root is Some && e@ == "--root "@
                    + args.root->0@ + " does not exist"@
            },
        },
{
    let agent = match &args.agent_root {
        Some(p) => p.clone(),
        None => String::from_str(configured),
    };
    if !agent_exists {
        let mut s = String::from_str("agent_root ");
        s.append(agent.as_str());
        s.append(
            " does not exist on disk; pass --agent-root to override or fix paths.agent_root in config.toml.",
        );
        return Err(s);
    }
    let walk = match &args.root {
        Some(w) => {
            if !root_exists {
                let mut s = String::from_str("--root ");
                s.append(w.as_str());
                s.append(" does not exist");
                return Err(s);
            }
            w.clone()
        },
        None => agent.clone(),
    };
    Ok(RelinkPlaces { agent, walk })
}

/// Whether `needle` stands in `hay` at `i`.
pub open spec fn bytes_at(hay: Seq<u8>, needle: Seq<u8>, i: int) -> bool {
    0 <= i && i + needle.len() <= hay.len() && hay.subrange(i, i + needle.len()) == needle
}

fn bytes_stand_at(hay: &Vec<u8>, needle: &Vec<u8>, i: usize) -> (b: bool)
    requires
        i + needle@.len() <= hay@.len(),
    ensures
        b == bytes_at(hay@, needle@, i as int),
{
    let n: usize = hay.len();
    let mut j: usize = 0;
    while j < needle.len()
        invariant
            j <= needle@.len(),
            i + needle@.len() <= hay@.len(),
            n == hay@.len(),
            forall|k: int| 0 <= k < j ==> hay@[i + k] == #[trigger] needle@[k],
        decreases needle@.len() - j,
    {
        if hay[i + j] != needle[j] {
            assert(hay@.subrange(i as int, i + needle@.len())[j as int] == hay@[i + j]);
            return false;
        }
        j = j + 1;
    }
    assert(hay@.subrange(i as int, i + needle@.len()) =~= needle@);
    true
}

/// Whether `needle` stands anywhere in `haystack`.
pub fn memmem(haystack: &Vec<u8>, needle: &Vec<u8>) -> (b: bool)
    ensures
        b == exists|i: int| bytes_at(haystack@, needle@, i),
{
    if haystack.len() < needle.len() {
        return false;
    }
    let last: usize = haystack.len() - needle.len();
    let mut i: usize = 0;
    loop
        invariant
            i <= last,
            last == haystack@.len() - needle@.len(),
            forall|j: int| 0 <= j < i ==> !bytes_at(haystack@, needle@, j),
        decreases last - i,
    {
        if bytes_stand_at(haystack, needle, i) {
            return true;
        }
        if i == last {
            assert forall|j: int| !bytes_at(haystack@, needle@, j) by {}
            return false;
        }
        i = i + 1;
    }
}

/// What `kb relink` says at its start.
pub fn relink_start(places: &RelinkPlaces, dry_run: bool) -> (r: String)
    ensures
        r@ == "kb relink: scanning "@ + places.walk@ + " (agent_root: "@ + places.agent@ + ")"@ + (
        if dry_run {
            "  [dry-run]"@
        } else {
            ""@
        }),
{
    let mut s = String::from_str("kb relink: scanning ");
    s.append(places.walk.as_str());
    s.append(" (agent_root: ");
    s.append(places.agent.as_str());
    s.append(")");
    if dry_run {
        s.append("  [dry-run]");
    } else {
        s.append("");
    }
    s
}

/// What `kb relink` says of the files that hold a placeholder.
pub fn relink_candidates(count: usize) -> (r: String)
    ensures
        r@ == if count == 0 {
            "  no files contain the legacy placeholder; nothing to do."@
        } else {
            "  "@ + number::decimal(count as int) + " file(s) carry the legacy placeholder"@
        },
{
    if count == 0 {
        String::from_str("  no files contain the legacy placeholder; nothing to do.")
    } else {
        let mut s = String::from_str("  ");
        s.append(count_text(count).as_str());
        s.append(" file(s) carry the legacy placeholder");
        s
    }
}

/// The examples, at most twenty.
pub open spec fn example_lines(examples: Seq<Seq<char>>) -> Seq<Seq<char>> {
    if examples.len() == 0 {
        seq![]
    } else {
        seq!["  examples:"@] + Seq::new(
            crate::show::first(examples, 20).len(),
            |i: int| "    • "@ + examples[i],
        ) + (if examples.len() > 20 {
            seq!["    … "@ + number::decimal(examples.len() - 20) + " more"@]
        } else {
            seq![]
        })
    }
}

/// What `kb relink` says at its end.
pub open spec fn relink_lines(s: RelinkStats, dry_run: bool) -> Seq<Seq<char>> {
    seq![
        ""@,
        "  files examined : "@ + number::decimal(s.files_examined as int),
        "  files modified : "@ + number::decimal(s.files_modified as int),
        "  links restored : "@ + number::decimal(s.links_restored as int),
    ] + example_lines(views(s.examples@)) + (if dry_run {
        seq![""@, "  Re-run without --dry-run to apply."@]
    } else {
        seq![]
    })
}

fn add_examples(out: &mut Vec<String>, examples: &Vec<String>)
    ensures
        views(final(out)@) == views(old(out)@) + example_lines(views(examples@)),
{
    let ghost before = views(out@);
    let ghost es = views(examples@);
    if examples.len() == 0 {
        assert(before =~= before + example_lines(es));
        return;
    }
    add_fixed(out, "  examples:");
    let ghost head = views(out@);
    let n: usize = if examples.len() <= 20 {
        examples.len()
    } else {
        20
    };
    let mut i: usize = 0;
    assert(head =~= head + Seq::new(0, |j: int| "    • "@ + es[j]));
    while i < n
        invariant
            i <= n <= examples@.len(),
            es == views(examples@),
            views(out@) == head + Seq::new(i as nat, |j: int| "    • "@ + es[j]),
        decreases n - i,
    {
        let mut s = String::from_str("    • ");
        s.append(examples[i].as_str());
        add_line(out, s);
        i = i + 1;
        assert(views(out@) =~= head + Seq::new(i as nat, |j: int| "    • "@ + es[j]));
    }
    if examples.len() > 20 {
        let mut s = String::from_str("    … ");
        s.append(count_text(examples.len() - 20).as_str());
        s.append(" more");
        add_line(out, s);
    }
    assert(views(out@) =~= before + example_lines(es));
}

/// What `kb relink` says at its end.
pub fn relink_report(s: &RelinkStats, dry_run: bool) -> (r: Vec<String>)
    ensures
        views(r@) == relink_lines(*s, dry_run),
{
    let mut out: Vec<String> = Vec::new();
    let mut examined = String::from_str("  files examined : ");
    examined.append(count_text(s.files_examined).as_str());
    let mut modified = String::from_str("  files modified : ");
    modified.append(count_text(s.files_modified).as_str());
    let mut restored = String::from_str("  links restored : ");
    restored.append(count_text(s.links_restored).as_str());
    add_fixed(&mut out, "");
    add_line(&mut out, examined);
    add_line(&mut out, modified);
    add_line(&mut out, restored);
    let ghost head = views(out@);
    add_examples(&mut out, &s.examples);
    if dry_run {
        add_fixed(&mut out, "");
        add_fixed(&mut out, "  Re-run without --dry-run to apply.");
    }
    assert(views(out@) =~= relink_lines(*s, dry_run));
    out
}

} // verus!
