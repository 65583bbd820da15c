//! What changed in the vault while the agent ran.
//!
//! The vault is listed before and after a run. Every file that appeared, changed or
//! vanished and that the plan does not speak of was written behind the policy
//! wrapper's back.

use vstd::prelude::*;
use vstd::string::*;

use crate::path_map;
use crate::path_map::{is_listing, PathMap};
use crate::paths;
use crate::paths::{components, is_under, join_path};
use crate::plan::Plan;
use crate::text;
use crate::text::{has_suffix, is_listed, same_text, split_at_first};

verus! {

// ---------------------------------------------------------------- the listing

/// By what a change of a file is noticed.
#[derive(Debug, Clone, Copy, PartialEq, Eq, Structural)]
pub struct FileMark {
    /// Time of the last change, in nanoseconds since the epoch.
    pub mtime_ns: i128,
    /// Length in bytes.
    pub size: u64,
}

/// The files of a vault, each with its mark.
pub type VaultSnapshot = PathMap<FileMark>;

/// The sequence of components of a path.
pub type Key = Seq<Seq<char>>;

/// A regular file that the walk through the vault came upon.
#[derive(Debug, Clone)]
pub struct WalkedFile {
    /// The path as walked.
    pub path: String,
    /// The path with all links followed, where it could be told.
    pub canonical: Option<String>,
    /// Seconds and nanoseconds of the last change and the length, where they could
    /// be told.
    pub meta: Option<(i64, i64, u64)>,
}

/// Directories that are never entered.
pub open spec fn skipped_dirs() -> Seq<Seq<char>> {
    seq![".obsidian"@, ".trash"@, ".git"@, "node_modules"@]
}

/// Whether the walk enters a directory: not one of the skipped names, and not the
/// sources directory or a place below it.
pub open spec fn enters(
    name: Seq<char>,
    canonical: Option<Seq<char>>,
    sources: Seq<char>,
) -> bool {
    !skipped_dirs().contains(name) && !(canonical matches Some(c) && paths::under(c, sources))
}

/// Whether the walk enters a directory.
pub fn enters_directory(name: &str, canonical: Option<&str>, sources: &str) -> (b: bool)
    ensures
        b == enters(
            name@,
            match canonical {
                Some(c) => Some(c@),
                None => None,
            },
            sources@,
        ),
{
    let skipped: Vec<&'static str> = vec![".obsidian", ".trash", ".git", "node_modules"];
    assert(text::literals(skipped@) =~= skipped_dirs());
    if is_listed(name, &skipped) {
        return false;
    }
    match canonical {
        Some(c) => !is_under(c, sources),
        None => true,
    }
}

/// The path by which a file is listed: the canonical one where it is known.
pub open spec fn listed_path(f: WalkedFile) -> Seq<char> {
    match f.canonical {
        Some(c) => c@,
        None => f.path@,
    }
}

/// The mark of a file with the given time of change and length.
pub open spec fn mark_of(secs: i64, nsecs: i64, size: u64) -> FileMark {
    FileMark { mtime_ns: (secs * 1_000_000_000 + nsecs) as i128, size }
}

/// The listing of the first `n` files: those whose marks are known and that are not
/// below the sources directory.
pub open spec fn snapshot_of(
    files: Seq<WalkedFile>,
    sources: Seq<char>,
    n: nat,
) -> Map<Key, FileMark>
    decreases n,
{
    if n == 0 {
        Map::empty()
    } else {
        let f = files[n - 1];
        let before = snapshot_of(files, sources, (n - 1) as nat);
        match f.meta {
            Some((secs, nsecs, size)) => if paths::under(listed_path(f), sources) {
                before
            } else {
                before.insert(components(listed_path(f)), mark_of(secs, nsecs, size))
            },
            None => before,
        }
    }
}

/// The listing of the files that the walk came upon.
pub fn snapshot_vault(files: &Vec<WalkedFile>, sources: &str) -> (r: VaultSnapshot)
    ensures
        r@ == snapshot_of(files@, sources@, files@.len()),
{
    let mut r: VaultSnapshot = PathMap::new();
    let mut i: usize = 0;
    while i < files.len()
        invariant
            i <= files@.len(),
            r@ == snapshot_of(files@, sources@, i as nat),
        decreases files@.len() - i,
    {
        let f = &files[i];
        let path = match &f.canonical {
            Some(c) => c.as_str(),
            None => f.path.as_str(),
        };
        if let Some((secs, nsecs, size)) = f.meta {
            if !is_under(path, sources) {
                let mtime_ns: i128 = secs as i128 * 1_000_000_000 + nsecs as i128;
                r.insert(path, FileMark { mtime_ns, size });
            }
        }
        i = i + 1;
    }
    r
}

// ---------------------------------------------------------------- the plan's paths

/// The place that a token of a plan entry names, if it names one.
pub open spec fn token_place(tok: Seq<char>, vault_root: Seq<char>) -> Option<Seq<char>> {
    match text::split_once(tok, '=') {
        Some((k, v)) => if k == "path"@ || k == "to"@ || k == "file"@ || k == "name"@ {
            Some(paths::join(vault_root, v))
        } else {
            None
        },
        None => None,
    }
}

/// The places that the first `n` tokens name, in order.
pub open spec fn token_places(
    args: Seq<Seq<char>>,
    vault_root: Seq<char>,
    n: nat,
) -> Seq<Seq<char>>
    decreases n,
{
    if n == 0 {
        Seq::empty()
    } else {
        let before = token_places(args, vault_root, (n - 1) as nat);
        match token_place(args[n - 1], vault_root) {
            Some(p) => before.push(p),
            None => before,
        }
    }
}

/// The places that the first `n` entries of a plan name, in order.
pub open spec fn plan_places(plan: Plan, vault_root: Seq<char>, n: nat) -> Seq<Seq<char>>
    decreases n,
{
    if n == 0 {
        Seq::empty()
    } else {
        let args = text::views(plan.entries@[n - 1].args@);
        plan_places(plan, vault_root, (n - 1) as nat) + token_places(args, vault_root, args.len())
    }
}

/// The absolute paths that a plan names, as written.
pub fn plan_candidates(plan: &Plan, vault_root: &str) -> (r: Vec<String>)
    ensures
        text::views(r@) == plan_places(*plan, vault_root@, plan.entries@.len()),
{
    let mut r: Vec<String> = Vec::new();
    let mut i: usize = 0;
    assert(text::views(r@) =~= Seq::<Seq<char>>::empty());
    while i < plan.entries.len()
        invariant
            i <= plan.entries@.len(),
            text::views(r@) == plan_places(*plan, vault_root@, i as nat),
        decreases plan.entries@.len() - i,
    {
        let ghost base = text::views(r@);
        let args = &plan.entries[i].args;
        let ghost vs = text::views(args@);
        let mut j: usize = 0;
        assert(base + token_places(vs, vault_root@, 0) =~= base);
        while j < args.len()
            invariant
                j <= args@.len(),
                vs == text::views(args@),
                text::views(r@) == base + token_places(vs, vault_root@, j as nat),
            decreases args@.len() - j,
        {
            let ghost sofar = text::views(r@);
            assert(vs[j as int] == args@[j as int]@);
            if let Some((k, v)) = split_at_first(args[j].as_str(), '=') {
                if same_text(k, "path") || same_text(k, "to") || same_text(k, "file") || same_text(
                    k,
                    "name",
                ) {
                    let place = join_path(vault_root, v);
                    r.push(place);
                    assert(text::views(r@) =~= sofar.push(place@));
                    assert(sofar.push(place@) =~= base + token_places(
                        vs,
                        vault_root@,
                        j as nat,
                    ).push(place@));
                }
            }
            j = j + 1;
        }
        i = i + 1;
    }
    r
}

/// Whether a path is spoken of by one of the canonical paths, as it stands or with
/// the suffix `.md` that some commands leave out.
pub open spec fn spoken_of(canonical: Seq<Seq<char>>, k: Key) -> bool {
    exists|i: int|
        0 <= i < canonical.len() && (components(#[trigger] canonical[i]) == k || (
        !text::ends_with(canonical[i], ".md"@) && components(canonical[i] + ".md"@) == k))
}

/// The set of paths that a plan speaks of, from the canonical forms of its places.
pub fn planned_paths(canonical: &Vec<String>) -> (r: PathMap<()>)
    ensures
        forall|k: Key| #[trigger]
            r@.contains_key(k) <==> spoken_of(text::views(canonical@), k),
{
    let ghost vs = text::views(canonical@);
    let mut r: PathMap<()> = PathMap::new();
    let mut i: usize = 0;
    while i < canonical.len()
        invariant
            i <= canonical@.len(),
            vs == text::views(canonical@),
            forall|k: Key| #[trigger]
                r@.contains_key(k) <==> spoken_of(vs.take(i as int), k),
        decreases canonical@.len() - i,
    {
        let ghost before = r@;
        let path = canonical[i].as_str();
        assert(vs[i as int] == path@);
        r.insert(path, ());
        let suffixed = has_suffix(path, ".md");
        if !suffixed {
            let mut long = String::from_str(path);
            long.append(".md");
            r.insert(long.as_str(), ());
        }
        proof {
            let a = vs.take(i as int);
            let b = vs.take(i + 1);
            assert(b =~= a.push(path@));
            assert forall|k: Key| #[trigger] r@.contains_key(k) <==> spoken_of(b, k) by {
                let own = components(path@) == k || (!text::ends_with(path@, ".md"@)
                    && components(path@ + ".md"@) == k);
                assert(r@.contains_key(k) <==> before.contains_key(k) || own);
                if spoken_of(a, k) {
                    let j = choose|j: int|
                        0 <= j < a.len() && (components(#[trigger] a[j]) == k || (
                        !text::ends_with(a[j], ".md"@) && components(a[j] + ".md"@) == k));
                    assert(b[j] == a[j]);
                }
                if own {
                    assert(b[i as int] == path@);
                }
                if spoken_of(b, k) && !own {
                    let j = choose|j: int|
                        0 <= j < b.len() && (components(#[trigger] b[j]) == k || (
                        !text::ends_with(b[j], ".md"@) && components(b[j] + ".md"@) == k));
                    assert(j < i);
                    assert(b[j] == a[j]);
                }
            }
        }
        i = i + 1;
    }
    assert(vs.take(i as int) =~= vs);
    r
}

// ---------------------------------------------------------------- the audit

/// Whether a file appeared, changed or vanished between two listings.
pub open spec fn changed(
    before: Map<Key, FileMark>,
    after: Map<Key, FileMark>,
    k: Key,
) -> bool {
    before.contains_key(k) != after.contains_key(k) || (before.contains_key(k) && before[k]
        != after[k])
}

/// The files that changed and that no plan speaks of.
pub open spec fn rogue(
    before: Map<Key, FileMark>,
    after: Map<Key, FileMark>,
    planned: Set<Key>,
) -> Set<Key> {
    Set::new(|k: Key| changed(before, after, k) && !planned.contains(k))
}

/// The files that are there after and were not there before.
pub open spec fn created(before: Map<Key, FileMark>, after: Map<Key, FileMark>) -> Set<Key> {
    after.dom().difference(before.dom())
}

/// The files that changed and that the plan does not speak of, in path order.
pub fn audit_vault_diff(
    before: &VaultSnapshot,
    after: &VaultSnapshot,
    planned: &PathMap<()>,
) -> (r: Vec<String>)
    ensures
        is_listing(text::views(r@), rogue(before@, after@, planned@.dom())),
{
    let m: usize = before.len();
    let n: usize = after.len();
    let ghost bs = before.listed();
    let ghost cs = after.listed();
    let mut found: PathMap<()> = PathMap::new();
    let mut i: usize = 0;
    while i < n
        invariant
            i <= n,
            n == cs.len(),
            cs == after.listed(),
            forall|j: int|
                0 <= j < cs.len() ==> after@[components((#[trigger] cs[j]).0@)] == cs[j].1,
            forall|k: Key|
                after@.contains_key(k) <==> exists|j: int| path_map::key_at(cs, k, j),
            forall|k: Key| #[trigger]
                found@.contains_key(k) <==> rogue(before@, after@, planned@.dom()).contains(k)
                    && exists|j: int| j < i && path_map::key_at(cs, k, j),
        decreases cs.len() - i,
    {
        let path = after.path(i);
        let ghost here = components(path@);
        assert(path_map::key_at(cs, here, i as int));
        let same = match before.get(path) {
            Some(m) => {
                let now = after.value(i);
                *m == *now
            },
            None => false,
        };
        let ghost earlier = found@;
        if !same && !planned.contains(path) {
            found.insert(path, ());
        }
        assert(found@.contains_key(here) <==> rogue(
            before@,
            after@,
            planned@.dom(),
        ).contains(here) || earlier.contains_key(here));
        assert forall|k: Key| #[trigger]
            found@.contains_key(k) <==> rogue(before@, after@, planned@.dom()).contains(k)
                && exists|j: int| j < i + 1 && path_map::key_at(cs, k, j) by {
            if exists|j: int| j < i && path_map::key_at(cs, k, j) {
                let j = choose|j: int| j < i && path_map::key_at(cs, k, j);
                assert(j < i + 1 && path_map::key_at(cs, k, j));
            }
            if k == here {
                assert(i < i + 1 && path_map::key_at(cs, k, i as int));
            } else if exists|j: int| j < i + 1 && path_map::key_at(cs, k, j) {
                let j = choose|j: int| j < i + 1 && path_map::key_at(cs, k, j);
                assert(j < i && path_map::key_at(cs, k, j));
            }
        }
        i = i + 1;
    }
    let ghost from_after = found@;
    assert forall|k: Key| #[trigger]
        from_after.contains_key(k) <==> rogue(before@, after@, planned@.dom()).contains(k)
            && after@.contains_key(k) by {
        if after@.contains_key(k) {
            let j = choose|j: int| path_map::key_at(cs, k, j);
            assert(j < i && path_map::key_at(cs, k, j));
        }
    }
    let mut j: usize = 0;
    while j < m
        invariant
            j <= m,
            m == bs.len(),
            bs == before.listed(),
            forall|k: Key|
                before@.contains_key(k) <==> exists|t: int| path_map::key_at(bs, k, t),
            forall|k: Key| #[trigger]
                found@.contains_key(k) <==> rogue(before@, after@, planned@.dom()).contains(k) && (
                after@.contains_key(k) || exists|t: int| t < j && path_map::key_at(bs, k, t)),
        decreases bs.len() - j,
    {
        let path = before.path(j);
        let ghost here = components(path@);
        assert(path_map::key_at(bs, here, j as int));
        let ghost earlier = found@;
        if !after.contains(path) && !planned.contains(path) {
            found.insert(path, ());
        }
        assert forall|k: Key| #[trigger]
            found@.contains_key(k) <==> rogue(before@, after@, planned@.dom()).contains(k) && (
            after@.contains_key(k) || exists|t: int| t < j + 1 && path_map::key_at(bs, k, t)) by {
            if exists|t: int| t < j && path_map::key_at(bs, k, t) {
                let t = choose|t: int| t < j && path_map::key_at(bs, k, t);
                assert(t < j + 1 && path_map::key_at(bs, k, t));
            }
            if k == here {
                assert(j < j + 1 && path_map::key_at(bs, k, j as int));
            } else if exists|t: int| t < j + 1 && path_map::key_at(bs, k, t) {
                let t = choose|t: int| t < j + 1 && path_map::key_at(bs, k, t);
                assert(t < j && path_map::key_at(bs, k, t));
            }
        }
        j = j + 1;
    }
    assert forall|k: Key| #[trigger]
        found@.dom().contains(k) <==> rogue(before@, after@, planned@.dom()).contains(k) by {
        if rogue(before@, after@, planned@.dom()).contains(k) && !after@.contains_key(k) {
            let t = choose|t: int| path_map::key_at(bs, k, t);
            assert(t < j && path_map::key_at(bs, k, t));
        }
    }
    assert(found@.dom() =~= rogue(before@, after@, planned@.dom()));
    found.into_paths()
}

/// The files that are there after and were not there before, in path order.
pub fn newly_created(before: &VaultSnapshot, after: &VaultSnapshot) -> (r: Vec<String>)
    ensures
        is_listing(text::views(r@), created(before@, after@)),
{
    let n: usize = after.len();
    let ghost cs = after.listed();
    let mut found: PathMap<()> = PathMap::new();
    let mut i: usize = 0;
    while i < n
        invariant
            i <= n,
            n == cs.len(),
            cs == after.listed(),
            forall|k: Key|
                after@.contains_key(k) <==> exists|j: int| path_map::key_at(cs, k, j),
            forall|k: Key| #[trigger]
                found@.contains_key(k) <==> !before@.contains_key(k) && exists|j: int|
                    j < i && path_map::key_at(cs, k, j),
        decreases cs.len() - i,
    {
        let path = after.path(i);
        let ghost here = components(path@);
        assert(path_map::key_at(cs, here, i as int));
        if !before.contains(path) {
            found.insert(path, ());
        }
        assert forall|k: Key| #[trigger]
            found@.contains_key(k) <==> !before@.contains_key(k) && exists|j: int|
                j < i + 1 && path_map::key_at(cs, k, j) by {
            if exists|j: int| j < i && path_map::key_at(cs, k, j) {
                let j = choose|j: int| j < i && path_map::key_at(cs, k, j);
                assert(j < i + 1 && path_map::key_at(cs, k, j));
            }
            if k == here {
                assert(i < i + 1 && path_map::key_at(cs, k, i as int));
            } else if exists|j: int| j < i + 1 && path_map::key_at(cs, k, j) {
                let j = choose|j: int| j < i + 1 && path_map::key_at(cs, k, j);
                assert(j < i && path_map::key_at(cs, k, j));
            }
        }
        i = i + 1;
    }
    assert forall|k: Key| #[trigger]
        found@.dom().contains(k) <==> created(before@, after@).contains(k) by {
        if after@.contains_key(k) {
            let j = choose|j: int| path_map::key_at(cs, k, j);
            assert(j < i && path_map::key_at(cs, k, j));
        }
    }
    assert(found@.dom() =~= created(before@, after@));
    found.into_paths()
}

// ---------------------------------------------------------------- laws

/// Where nothing changed there is nothing to report, whatever the plan says.
pub proof fn law_no_change_no_rogue(m: Map<Key, FileMark>, planned: Set<Key>)
    ensures
        rogue(m, m, planned) == Set::<Key>::empty(),
{
    assert(rogue(m, m, planned) =~= Set::<Key>::empty());
}

/// Nothing is reported exactly when the plan speaks of every change.
pub proof fn law_clean_iff_all_planned(
    before: Map<Key, FileMark>,
    after: Map<Key, FileMark>,
    planned: Set<Key>,
)
    ensures
        rogue(before, after, planned) == Set::<Key>::empty() <==> (forall|k: Key|
            changed(before, after, k) ==> planned.contains(k)),
{
    let r = rogue(before, after, planned);
    if forall|k: Key| changed(before, after, k) ==> planned.contains(k) {
        assert(r =~= Set::<Key>::empty());
    }
    if r == Set::<Key>::empty() {
        assert forall|k: Key| changed(before, after, k) implies planned.contains(k) by {
            assert(!r.contains(k));
        }
    }
}

/// Every new file is reported unless the plan speaks of it.
pub proof fn law_created_is_reported(
    before: Map<Key, FileMark>,
    after: Map<Key, FileMark>,
    planned: Set<Key>,
    k: Key,
)
    requires
        created(before, after).contains(k),
    ensures
        rogue(before, after, planned).contains(k) || planned.contains(k),
{
}

/// No file below the sources directory is ever listed.
pub proof fn law_sources_are_not_listed(
    files: Seq<WalkedFile>,
    sources: Seq<char>,
    n: nat,
    path: Seq<char>,
)
    requires
        n <= files.len(),
        paths::under(path, sources),
    ensures
        !snapshot_of(files, sources, n).contains_key(components(path)),
    decreases n,
{
    if n > 0 {
        law_sources_are_not_listed(files, sources, (n - 1) as nat, path);
    }
}

} // verus!
