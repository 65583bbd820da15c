//! What is looked into, written and reported when the files of a vault are gone through.

use vstd::prelude::*;
use vstd::string::*;

use crate::indexer::{
    created, enters, plan_places, rogue, snapshot_of, spoken_of, token_places, FileMark, Key,
    WalkedFile,
};
use crate::link_sweeper::{
    all_touched, is_markdown, is_relink, is_sweep, lost_count, lost_examples, lost_in,
    restored_count, restored_examples, restored_in, rewrites, relinked_text, targets_in,
    unresolved_in, visit, visits, RelinkStats, SweepStats, SweptFile, Visit,
};
use crate::path_laws::{law_file_name, law_name_parts};
use crate::paths::{components, join};
use crate::plan::{Plan, PlanEntry};
use crate::text;
use crate::text_laws::law_split_once;

verus! {

// ---------------------------------------------------------------- which files

/// Whether the file at index `i` is one to look into: a regular markdown file in the
/// agent's directory that could be read and was not handed over before.
pub open spec fn to_examine(files: Seq<SweptFile>, agent_root: Seq<char>, i: int) -> bool {
    &&& files[i].is_file
    &&& files[i].content is Some
    &&& is_markdown(files[i].path@)
    &&& components(agent_root).is_prefix_of(components(files[i].path@))
    &&& forall|j: int|
        0 <= j < i ==> components((#[trigger] files[j]).path@) != components(files[i].path@)
}

/// A file is looked into just where it is a regular markdown file in the agent's
/// directory that could be read and was not handed over before; a file that is passed
/// over is counted under what is wrong with it.
pub proof fn law_examined(files: Seq<SweptFile>, agent_root: Seq<char>, i: int)
    requires
        0 <= i < files.len(),
    ensures
        visit(files, agent_root, i) == Visit::Examined <==> to_examine(files, agent_root, i),
        visit(files, agent_root, i) == Visit::NotAFile ==> !files[i].is_file,
        visit(files, agent_root, i) == Visit::OutsideRoot ==> !components(agent_root).is_prefix_of(
            components(files[i].path@),
        ),
        visit(files, agent_root, i) == Visit::NotMarkdown ==> !is_markdown(files[i].path@),
        visit(files, agent_root, i) == Visit::Unreadable ==> files[i].content is None,
        visit(files, agent_root, i) == Visit::Again ==> exists|j: int|
            0 <= j < i && components((#[trigger] files[j]).path@) == components(files[i].path@),
{
}

/// Markdown is what ends in `.md`.
pub proof fn law_markdown(dir: Seq<char>, name: Seq<char>)
    requires
        crate::paths::is_name(name + ".md"@),
        name.len() > 0,
    ensures
        is_markdown(join(dir, name + ".md"@)),
{
    reveal_strlit(".md");
    reveal_strlit("md");
    let file = name + ".md"@;
    assert(file != seq!['.', '.']) by {
        assert(file.len() > 3);
    }
    law_file_name(dir, file);
    law_name_parts(name, "md"@);
    assert(name + seq!['.'] + "md"@ =~= file);
    assert(text::lower_ascii("md"@) =~= "md"@);
}

/// Telling what files hold, a file at the end changes nothing of what is told of those
/// before it.
proof fn lemma_pushed(files: Seq<SweptFile>, f: SweptFile, agent_root: Seq<char>, i: int)
    requires
        0 <= i < files.len(),
    ensures
        visit(files.push(f), agent_root, i) == visit(files, agent_root, i),
        files.push(f)[i] == files[i],
{
    let more = files.push(f);
    if crate::link_sweeper::handed_before(files, i) {
        let j = choose|j: int|
            0 <= j < i && components((#[trigger] files[j]).path@) == components(files[i].path@);
        assert(components(more[j].path@) == components(more[i].path@));
    }
    if crate::link_sweeper::handed_before(more, i) {
        let j = choose|j: int|
            0 <= j < i && components((#[trigger] more[j]).path@) == components(more[i].path@);
        assert(components(files[j].path@) == components(files[i].path@));
    }
}

// ---------------------------------------------------------------- restoring links

/// Whether the file at index `i` is one that restoring links writes.
pub open spec fn to_rewrite(files: Seq<SweptFile>, agent_root: Seq<char>, i: int) -> bool {
    to_examine(files, agent_root, i) && targets_in(files[i].content->0@).len() > 0
}

/// Without a dry run every file with a lost link is written, once and in order, with its
/// links restored, and no other file is: the files to write are those at the indices
/// that come back.
pub proof fn law_every_lost_link_is_written(
    files: Seq<SweptFile>,
    agent_root: Seq<char>,
    n: nat,
) -> (at: Seq<int>)
    requires
        n <= files.len(),
    ensures
        at.len() == rewrites(files, agent_root, n).len(),
        forall|j: int, k: int| 0 <= j < k < at.len() ==> at[j] < at[k],
        forall|j: int|
            0 <= j < at.len() ==> 0 <= #[trigger] at[j] < n && to_rewrite(files, agent_root, at[j])
                && rewrites(files, agent_root, n)[j] == (
                files[at[j]].path@,
                relinked_text(files[at[j]].content->0@),
            ),
        forall|i: int|
            0 <= i < n && #[trigger] to_rewrite(files, agent_root, i) ==> at.contains(i) && rewrites(
                files,
                agent_root,
                n,
            ).contains((files[i].path@, relinked_text(files[i].content->0@))),
    decreases n,
{
    if n == 0 {
        Seq::empty()
    } else {
        let m = (n - 1) as nat;
        let before = law_every_lost_link_is_written(files, agent_root, m);
        law_examined(files, agent_root, n - 1);
        let old_list = rewrites(files, agent_root, m);
        let list = rewrites(files, agent_root, n);
        let here = (files[n - 1].path@, relinked_text(files[n - 1].content->0@));
        let at = if to_rewrite(files, agent_root, n - 1) {
            before.push(n - 1)
        } else {
            before
        };
        if to_rewrite(files, agent_root, n - 1) {
            assert(list =~= old_list.push(here));
            assert(list[old_list.len() as int] == here);
            assert(at[before.len() as int] == n - 1);
        } else {
            assert(list =~= old_list);
        }
        assert forall|i: int| 0 <= i < n && #[trigger] to_rewrite(files, agent_root, i) implies
            at.contains(i) && list.contains(
            (files[i].path@, relinked_text(files[i].content->0@)),
        ) by {
            if i < n - 1 {
                let j = choose|j: int| 0 <= j < before.len() && before[j] == i;
                assert(at[j] == i);
                assert(list[j] == old_list[j]);
            }
        }
        at
    }
}

/// One file more adds its lost links to the count and its lines to the report where it is
/// to be looked into, and nothing where it is not.
pub proof fn law_restored_by_file(files: Seq<SweptFile>, f: SweptFile, agent_root: Seq<char>)
    ensures
        ({
            let more = files.push(f);
            let n = files.len();
            let lost = targets_in(f.content->0@);
            let counted = restored_count(more, agent_root, more.len()) - restored_count(
                files,
                agent_root,
                n,
            );
            let examined = visits(more, agent_root, Visit::Examined, more.len()) - visits(
                files,
                agent_root,
                Visit::Examined,
                n,
            );
            let lines = restored_examples(more, agent_root, more.len()).skip(
                restored_examples(files, agent_root, n).len() as int,
            );
            &&& restored_count(Seq::<SweptFile>::empty(), agent_root, 0) == 0
            &&& restored_examples(files, agent_root, n).is_prefix_of(
                restored_examples(more, agent_root, more.len()),
            )
            &&& to_examine(more, agent_root, n as int) ==> counted == lost.len() && examined == 1
                && lines.len() == (if lost.len() < 5 { lost.len() } else { 5 })
                && forall|i: int|
                0 <= i < lines.len() ==> text::contains(#[trigger] lines[i], lost[i])
            &&& !to_examine(more, agent_root, n as int) ==> counted == 0 && examined == 0
                && lines.len() == 0
        }),
{
    let more = files.push(f);
    let n = files.len();
    lemma_restored_prefix(files, f, agent_root, n);
    law_examined(more, agent_root, n as int);
    let before = restored_examples(files, agent_root, n);
    let after = restored_examples(more, agent_root, more.len());
    let here = restored_in(more, agent_root, n as int);
    let added = crate::link_sweeper::examples(f.path@, here);
    assert(more[n as int] == f);
    assert(after == before + added);
    assert(after.skip(before.len() as int) =~= added);
    assert(before =~= after.subrange(0, before.len() as int));
    assert forall|i: int| 0 <= i < added.len() implies text::contains(
        #[trigger] added[i],
        here[i],
    ) by {
        let front = crate::link_sweeper::shown_name(f.path@) + ": [["@;
        crate::text_laws::law_parts_are_found(front, here[i], "]]"@);
        assert(added[i] == front + here[i] + "]]"@);
    }
}

proof fn lemma_restored_prefix(
    files: Seq<SweptFile>,
    f: SweptFile,
    agent_root: Seq<char>,
    k: nat,
)
    requires
        k <= files.len(),
    ensures
        restored_count(files.push(f), agent_root, k) == restored_count(files, agent_root, k),
        restored_examples(files.push(f), agent_root, k) == restored_examples(files, agent_root, k),
        visits(files.push(f), agent_root, Visit::Examined, k) == visits(
            files,
            agent_root,
            Visit::Examined,
            k,
        ),
    decreases k,
{
    if k > 0 {
        lemma_restored_prefix(files, f, agent_root, (k - 1) as nat);
        lemma_pushed(files, f, agent_root, k - 1);
    }
}

// ---------------------------------------------------------------- sweeping

/// One file more adds its links that lead nowhere to the count and its lines to the
/// report where it is to be looked into, and nothing where it is not.
pub proof fn law_lost_by_file(
    files: Seq<SweptFile>,
    f: SweptFile,
    agent_root: Seq<char>,
    existing: Set<Seq<char>>,
)
    ensures
        ({
            let more = files.push(f);
            let n = files.len();
            let lost = unresolved_in(f.content->0@, existing);
            let counted = lost_count(more, agent_root, existing, more.len()) - lost_count(
                files,
                agent_root,
                existing,
                n,
            );
            let lines = lost_examples(more, agent_root, existing, more.len()).skip(
                lost_examples(files, agent_root, existing, n).len() as int,
            );
            &&& lost_count(Seq::<SweptFile>::empty(), agent_root, existing, 0) == 0
            &&& lost_examples(files, agent_root, existing, n).is_prefix_of(
                lost_examples(more, agent_root, existing, more.len()),
            )
            &&& to_examine(more, agent_root, n as int) ==> counted == lost.len() && lines.len() == (
            if lost.len() < 5 { lost.len() } else { 5 }) && forall|i: int|
                0 <= i < lines.len() ==> text::contains(#[trigger] lines[i], lost[i].target)
            &&& !to_examine(more, agent_root, n as int) ==> counted == 0 && lines.len() == 0
        }),
{
    let more = files.push(f);
    let n = files.len();
    lemma_lost_prefix(files, f, agent_root, existing, n);
    law_examined(more, agent_root, n as int);
    let before = lost_examples(files, agent_root, existing, n);
    let after = lost_examples(more, agent_root, existing, more.len());
    let here = lost_in(more, agent_root, existing, n as int);
    let added = crate::link_sweeper::examples(f.path@, here);
    assert(more[n as int] == f);
    assert(after == before + added);
    assert(after.skip(before.len() as int) =~= added);
    assert(before =~= after.subrange(0, before.len() as int));
    assert forall|i: int| 0 <= i < added.len() implies text::contains(
        #[trigger] added[i],
        here[i],
    ) by {
        let front = crate::link_sweeper::shown_name(f.path@) + ": [["@;
        crate::text_laws::law_parts_are_found(front, here[i], "]]"@);
        assert(added[i] == front + here[i] + "]]"@);
    }
}

proof fn lemma_lost_prefix(
    files: Seq<SweptFile>,
    f: SweptFile,
    agent_root: Seq<char>,
    existing: Set<Seq<char>>,
    k: nat,
)
    requires
        k <= files.len(),
    ensures
        lost_count(files.push(f), agent_root, existing, k) == lost_count(
            files,
            agent_root,
            existing,
            k,
        ),
        lost_examples(files.push(f), agent_root, existing, k) == lost_examples(
            files,
            agent_root,
            existing,
            k,
        ),
    decreases k,
{
    if k > 0 {
        lemma_lost_prefix(files, f, agent_root, existing, (k - 1) as nat);
        lemma_pushed(files, f, agent_root, k - 1);
    }
}

// ---------------------------------------------------------------- the listing

/// A file is listed with its time of change and its length where these are known and it
/// does not lie in the sources; the last that is said of a path counts.
pub proof fn law_listing(files: Seq<WalkedFile>, f: WalkedFile, sources: Seq<char>)
    ensures
        ({
            let more = files.push(f);
            let before = snapshot_of(files, sources, files.len());
            let after = snapshot_of(more, sources, more.len());
            let path = components(
                match f.canonical {
                    Some(c) => c@,
                    None => f.path@,
                },
            );
            &&& snapshot_of(Seq::<WalkedFile>::empty(), sources, 0) == Map::<Key, FileMark>::empty()
            &&& forall|k: Key| k != path ==> (#[trigger] after.contains_key(k) <==> before.contains_key(
                k,
            )) && (after.contains_key(k) ==> after[k] == before[k])
            &&& (f.meta matches Some((secs, nsecs, size)) && !components(sources).is_prefix_of(path))
                ==> after.contains_key(path) && after[path].size == (f.meta->0).2
                && after[path].mtime_ns == (f.meta->0).0 * 1_000_000_000 + (f.meta->0).1
            &&& f.meta is None || components(sources).is_prefix_of(path) ==> after == before
        }),
{
    lemma_listing_prefix(files, f, sources, files.len());
    let more = files.push(f);
    assert(more[files.len() as int] == f);
}

proof fn lemma_listing_prefix(files: Seq<WalkedFile>, f: WalkedFile, sources: Seq<char>, k: nat)
    requires
        k <= files.len(),
    ensures
        snapshot_of(files.push(f), sources, k) == snapshot_of(files, sources, k),
    decreases k,
{
    if k > 0 {
        lemma_listing_prefix(files, f, sources, (k - 1) as nat);
        assert(files.push(f)[k - 1] == files[k - 1]);
    }
}

/// The directories of Obsidian, of its trash, of git and of node packages are not
/// entered, nor the sources; every other directory is.
pub proof fn law_entered(name: Seq<char>, canonical: Option<Seq<char>>, sources: Seq<char>)
    ensures
        enters(name, canonical, sources) <==> name != ".obsidian"@ && name != ".trash"@ && name
            != ".git"@ && name != "node_modules"@ && (canonical matches Some(c) ==> !components(
            sources,
        ).is_prefix_of(components(c))),
{
    let d = crate::indexer::skipped_dirs();
    assert(d[0] == ".obsidian"@ && d[1] == ".trash"@ && d[2] == ".git"@ && d[3] == "node_modules"@);
}

// ---------------------------------------------------------------- the audit

/// What vanished, what appeared and what changed is reported where the plan does not
/// speak of it; nothing else is.
pub proof fn law_audit(
    before: Map<Key, FileMark>,
    after: Map<Key, FileMark>,
    planned: Set<Key>,
    k: Key,
)
    ensures
        planned.contains(k) ==> !rogue(before, after, planned).contains(k),
        !planned.contains(k) && before.contains_key(k) && !after.contains_key(k) ==> rogue(
            before,
            after,
            planned,
        ).contains(k),
        !planned.contains(k) && !before.contains_key(k) && after.contains_key(k) ==> rogue(
            before,
            after,
            planned,
        ).contains(k),
        !planned.contains(k) && before.contains_key(k) && after.contains_key(k) ==> (rogue(
            before,
            after,
            planned,
        ).contains(k) <==> before[k] != after[k]),
        !before.contains_key(k) && !after.contains_key(k) ==> !rogue(before, after, planned).contains(
            k,
        ),
        created(before, after).contains(k) <==> after.contains_key(k) && !before.contains_key(k),
{
}

/// A change is noticed by the time of change or by the length.
pub proof fn law_mark(a: FileMark, b: FileMark)
    ensures
        a == b <==> a.mtime_ns == b.mtime_ns && a.size == b.size,
{
}

/// A plan speaks of the paths that it names, and of these with `.md` behind them where
/// that is left out; of nothing else.
pub proof fn law_spoken_of(canonical: Seq<Seq<char>>, p: Seq<char>, k: Key)
    ensures
        canonical.contains(p) ==> spoken_of(canonical, components(p)),
        canonical.contains(p) && !text::ends_with(p, ".md"@) ==> spoken_of(
            canonical,
            components(p + ".md"@),
        ),
        spoken_of(canonical, k) ==> exists|i: int|
            0 <= i < canonical.len() && (components(#[trigger] canonical[i]) == k || components(
                canonical[i] + ".md"@,
            ) == k),
{
}

proof fn lemma_token_pushed(args: Seq<Seq<char>>, tok: Seq<char>, vault_root: Seq<char>, k: nat)
    requires
        k <= args.len(),
    ensures
        token_places(args.push(tok), vault_root, k) == token_places(args, vault_root, k),
    decreases k,
{
    if k > 0 {
        lemma_token_pushed(args, tok, vault_root, (k - 1) as nat);
        assert(args.push(tok)[k - 1] == args[k - 1]);
    }
}

/// A plan names a place by each `path`, `to`, `file` or `name`, seen from the vault, and
/// by no other token.
pub proof fn law_plan_token(
    args: Seq<Seq<char>>,
    key: Seq<char>,
    value: Seq<char>,
    vault_root: Seq<char>,
)
    requires
        !key.contains('='),
    ensures
        ({
            let more = args.push(key + seq!['='] + value);
            let named = key == "path"@ || key == "to"@ || key == "file"@ || key == "name"@;
            let before = token_places(args, vault_root, args.len());
            let after = token_places(more, vault_root, more.len());
            &&& token_places(Seq::<Seq<char>>::empty(), vault_root, 0).len() == 0
            &&& named ==> after == before.push(join(vault_root, value))
            &&& !named ==> after == before
            &&& token_places(args.push(key), vault_root, args.len() + 1) == before
        }),
{
    let tok = key + seq!['='] + value;
    law_split_once(key, '=', value);
    lemma_token_pushed(args, tok, vault_root, args.len());
    lemma_token_pushed(args, key, vault_root, args.len());
    assert(args.push(tok)[args.len() as int] == tok);
    assert(args.push(key)[args.len() as int] == key);
}

/// The places of a plan are those of its entries, one entry after the other.
pub proof fn law_plan_entries(plan: Plan, vault_root: Seq<char>, n: nat)
    requires
        n < plan.entries@.len(),
    ensures
        plan_places(plan, vault_root, 0).len() == 0,
        plan_places(plan, vault_root, n + 1) == plan_places(plan, vault_root, n) + token_places(
            text::views(plan.entries@[n as int].args@),
            vault_root,
            plan.entries@[n as int].args@.len(),
        ),
{
}

/// The files that a plan touched are those that its applied entries wrote: an entry that
/// was only recorded touched none.
pub proof fn law_touched(es: Seq<PlanEntry>, vault_root: Seq<char>, n: nat)
    requires
        n < es.len(),
    ensures
        all_touched(es, vault_root, 0).len() == 0,
        all_touched(es, vault_root, n).is_prefix_of(all_touched(es, vault_root, n + 1)),
        all_touched(es, vault_root, n + 1).len() <= all_touched(es, vault_root, n).len() + 1,
        !es[n as int].applied ==> all_touched(es, vault_root, n + 1) == all_touched(
            es,
            vault_root,
            n,
        ),
{
    let a = all_touched(es, vault_root, n);
    let b = all_touched(es, vault_root, n + 1);
    assert(b.subrange(0, a.len() as int) =~= a);
}

/// What a sweep reports: how many files it was given, looked into and passed over, and
/// why; how many links it found lost, and the examples of them. It has written nothing.
pub proof fn law_sweep_report(
    s: SweepStats,
    files: Seq<SweptFile>,
    agent_root: Seq<char>,
    existing: Set<Seq<char>>,
)
    requires
        is_sweep(s, files, agent_root, existing, files.len()),
    ensures
        s.files_input == files.len(),
        s.files_modified == 0,
        s.files_examined == visits(files, agent_root, Visit::Examined, files.len()),
        s.skipped_outside_root == visits(files, agent_root, Visit::OutsideRoot, files.len()),
        s.skipped_not_a_file == visits(files, agent_root, Visit::NotAFile, files.len()),
        s.skipped_non_markdown == visits(files, agent_root, Visit::NotMarkdown, files.len()),
        s.links_replaced == lost_count(files, agent_root, existing, files.len()),
        text::views(s.examples@) == lost_examples(files, agent_root, existing, files.len()),
{
}

/// What restoring links reports, in the same way.
pub proof fn law_relink_report(s: RelinkStats, files: Seq<SweptFile>, agent_root: Seq<char>)
    requires
        is_relink(s, files, agent_root, files.len()),
    ensures
        s.files_input == files.len(),
        s.files_modified == 0,
        s.files_examined == visits(files, agent_root, Visit::Examined, files.len()),
        s.links_restored == restored_count(files, agent_root, files.len()),
        text::views(s.examples@) == restored_examples(files, agent_root, files.len()),
{
}

} // verus!
