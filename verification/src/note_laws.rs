//! What a link is, when it leads to a note, and what takes its place.

use vstd::prelude::*;
use vstd::string::*;

use crate::json;
use crate::link_sweeper::{
    all_relinked, all_swept, calls, first_twenty, group, indexed, is_markdown, is_note,
    link_as_written, link_of, lost_target, relinked, replacement, resolved, sweep_fields, targets,
    unresolved, with_code, Groups, LinkView, NoteFile, SweepStats,
};
use crate::paths;
use crate::paths::components;
use crate::text;
use crate::text::{ends_with, trim};
use crate::text_laws::{law_found_is_a_part, law_parts_are_found};

verus! {

// ---------------------------------------------------------------- resolving

/// A link leads to a note that goes by its target, by the target with `.md` behind it, or
/// by the target without it; to no other.
pub proof fn law_resolved_target(t: Seq<char>, existing: Set<Seq<char>>)
    ensures
        existing.contains(t) ==> resolved(t, existing) && resolved(t + ".md"@, existing),
        existing.contains(t + ".md"@) ==> resolved(t, existing),
        resolved(t, existing) ==> existing.contains(t) || existing.contains(t + ".md"@) || exists|
            short: Seq<char>,
        | existing.contains(short) && t == #[trigger] (short + ".md"@),
{
    reveal_strlit(".md");
    law_parts_are_found(t, ".md"@, Seq::empty());
    let long = t + ".md"@;
    assert(long.take(long.len() - 3) =~= t);
    if ends_with(t, ".md"@) {
        law_found_is_a_part(t, ".md"@);
        let short = t.take(t.len() - 3);
        assert(t == short + ".md"@);
    }
}

/// The notes of a vault are its markdown files outside the sources; each goes by its name
/// without the extension, by its path in the vault, and by that path without `.md`.
pub proof fn law_note_names(files: Seq<NoteFile>, vault_root: Seq<char>, sources: Seq<char>, i: int)
    requires
        0 <= i < files.len(),
        is_markdown(files[i].path@),
        components(vault_root).is_prefix_of(components(files[i].path@)),
        !components(sources).is_prefix_of(
            components(
                match files[i].canonical {
                    Some(c) => c@,
                    None => files[i].path@,
                },
            ),
        ),
    ensures
        paths::file_name(files[i].path@) matches Some(n) ==> indexed(
            files,
            vault_root,
            sources,
            paths::name_stem(n),
        ),
        paths::below(files[i].path@, vault_root) is Some,
        indexed(files, vault_root, sources, paths::below(files[i].path@, vault_root)->0),
        forall|short: Seq<char>|
            paths::below(files[i].path@, vault_root) == Some(#[trigger] (short + ".md"@)) ==> indexed(
                files,
                vault_root,
                sources,
                short,
            ),
{
    assert(is_note(files[i], vault_root, sources));
    let rel = paths::below(files[i].path@, vault_root)->0;
    assert(calls(rel, files[i].path@, vault_root));
    assert forall|short: Seq<char>|
        paths::below(files[i].path@, vault_root) == Some(#[trigger] (short + ".md"@)) implies indexed(
        files,
        vault_root,
        sources,
        short,
    ) by {
        assert(calls(short, files[i].path@, vault_root));
    }
    if let Some(n) = paths::file_name(files[i].path@) {
        assert(calls(paths::name_stem(n), files[i].path@, vault_root));
    }
}

/// No name leads to a file that is no note.
pub proof fn law_only_notes(
    files: Seq<NoteFile>,
    vault_root: Seq<char>,
    sources: Seq<char>,
    name: Seq<char>,
) -> (i: int)
    requires
        indexed(files, vault_root, sources, name),
    ensures
        0 <= i < files.len(),
        is_markdown(files[i].path@),
        components(vault_root).is_prefix_of(components(files[i].path@)),
        !components(sources).is_prefix_of(
            components(
                match files[i].canonical {
                    Some(c) => c@,
                    None => files[i].path@,
                },
            ),
        ),
        paths::file_name(files[i].path@) == Some(name) || (paths::file_name(files[i].path@) is Some
            && name == paths::name_stem(paths::file_name(files[i].path@)->0)) || paths::below(
            files[i].path@,
            vault_root,
        ) == Some(name) || paths::below(files[i].path@, vault_root) == Some(name + ".md"@),
{
    let i = choose|i: int|
        0 <= i < files.len() && is_note(#[trigger] files[i], vault_root, sources) && calls(
            name,
            files[i].path@,
            vault_root,
        );
    i
}

// ---------------------------------------------------------------- sweeping

/// A link is made of its target, of the section behind a `#` and of the alias behind a
/// bar, without white space around them; a part that is blank is none.
pub proof fn law_link_parts(g: Groups)
    ensures
        link_of(g).target == trim(group(g, 1)),
        trim(group(g, 3)).len() > 0 ==> link_of(g).section == Some(trim(group(g, 3))),
        trim(group(g, 3)).len() == 0 ==> link_of(g).section is None,
        trim(group(g, 5)).len() > 0 ==> link_of(g).alias == Some(trim(group(g, 5))),
        trim(group(g, 5)).len() == 0 ==> link_of(g).alias is None,
        forall|i: int| 0 <= i < g.len() ==> (#[trigger] g[i] matches Some(t) ==> group(g, i) == t),
{
}

/// The text in place of a link that leads nowhere shows the alias, or the target where
/// there is none, the section behind it, and the marker at the end.
pub proof fn law_replacement(target: Seq<char>, alias: Seq<char>, section: Seq<char>)
    ensures
        replacement(LinkView { target, alias: None, section: None }) == target
            + " [possible linkout - elaboration needed]"@,
        replacement(LinkView { target, alias: Some(alias), section: None }) == alias
            + " [possible linkout - elaboration needed]"@,
        replacement(LinkView { target, alias: None, section: Some(section) }) == target + " (§"@
            + section + ")"@ + " [possible linkout - elaboration needed]"@,
        replacement(LinkView { target, alias: Some(alias), section: Some(section) }) == alias + " (§"@
            + section + ")"@ + " [possible linkout - elaboration needed]"@,
{
}

/// A link that leads to a note stays as it is; any other gives way to plain text.
pub proof fn law_swept(
    gs: Seq<Groups>,
    blocks: Seq<Seq<char>>,
    existing: Set<Seq<char>>,
    i: int,
)
    requires
        0 <= i < gs.len(),
    ensures
        all_swept(gs, blocks, existing).len() == gs.len(),
        resolved(with_code(trim(group(gs[i], 1)), blocks), existing) ==> all_swept(
            gs,
            blocks,
            existing,
        )[i] == group(gs[i], 0),
        !resolved(with_code(trim(group(gs[i], 1)), blocks), existing) ==> all_swept(
            gs,
            blocks,
            existing,
        )[i] == replacement(link_of(gs[i])),
{
}

/// The links that lead nowhere are told one by one, in order.
pub proof fn law_unresolved(
    gs: Seq<Groups>,
    blocks: Seq<Seq<char>>,
    existing: Set<Seq<char>>,
    n: nat,
)
    requires
        n < gs.len(),
    ensures
        unresolved(gs, blocks, existing, 0).len() == 0,
        resolved(with_code(trim(group(gs[n as int], 1)), blocks), existing) ==> unresolved(
            gs,
            blocks,
            existing,
            n + 1,
        ) == unresolved(gs, blocks, existing, n),
        !resolved(with_code(trim(group(gs[n as int], 1)), blocks), existing) ==> unresolved(
            gs,
            blocks,
            existing,
            n + 1,
        ) == unresolved(gs, blocks, existing, n).push(link_as_written(gs[n as int], blocks)),
        link_as_written(gs[n as int], blocks).target == with_code(
            trim(group(gs[n as int], 1)),
            blocks,
        ),
{
}

// ---------------------------------------------------------------- restoring

/// A lost link becomes a link to its text, with its section behind a `#`, and what stood
/// before it stays; one without text stays as it is.
pub proof fn law_relinked(g: Groups)
    ensures
        trim(group(g, 2)).len() == 0 ==> lost_target(g) is None && relinked(g) == group(g, 0),
        trim(group(g, 2)).len() > 0 && trim(group(g, 3)).len() == 0 ==> lost_target(g) == Some(
            trim(group(g, 2)),
        ) && relinked(g) == group(g, 1) + "[["@ + trim(group(g, 2)) + "]]"@,
        trim(group(g, 2)).len() > 0 && trim(group(g, 3)).len() > 0 ==> lost_target(g) == Some(
            trim(group(g, 2)) + "#"@ + trim(group(g, 3)),
        ) && relinked(g) == group(g, 1) + "[["@ + (trim(group(g, 2)) + "#"@ + trim(group(g, 3)))
            + "]]"@,
{
}

/// Each lost link is restored in its place, and its target is told, in order.
pub proof fn law_targets(gs: Seq<Groups>, n: nat)
    requires
        n < gs.len(),
    ensures
        all_relinked(gs).len() == gs.len(),
        all_relinked(gs)[n as int] == relinked(gs[n as int]),
        targets(gs, 0).len() == 0,
        lost_target(gs[n as int]) is None ==> targets(gs, n + 1) == targets(gs, n),
        lost_target(gs[n as int]) matches Some(t) ==> targets(gs, n + 1) == targets(gs, n).push(t),
{
}

// ---------------------------------------------------------------- the record

/// A sweep is recorded with each of its counts under its name, and with the first twenty
/// of its lines.
pub proof fn law_sweep_record(s: SweepStats)
    ensures
        ({
            let f = sweep_fields(s);
            let lines = text::views(s.examples@);
            &&& f.contains(
                ("link_sweep_examined"@, json::FieldView::Unsigned(s.files_examined as int)),
            )
            &&& f.contains(
                ("link_sweep_modified"@, json::FieldView::Unsigned(s.files_modified as int)),
            )
            &&& f.contains(
                ("link_sweep_replaced"@, json::FieldView::Unsigned(s.links_replaced as int)),
            )
            &&& f.contains(("link_sweep_input"@, json::FieldView::Unsigned(s.files_input as int)))
            &&& f.contains(
                (
                    "link_sweep_skipped_outside_root"@,
                    json::FieldView::Unsigned(s.skipped_outside_root as int),
                ),
            )
            &&& f.contains(
                (
                    "link_sweep_skipped_not_a_file"@,
                    json::FieldView::Unsigned(s.skipped_not_a_file as int),
                ),
            )
            &&& f.contains(
                (
                    "link_sweep_skipped_non_markdown"@,
                    json::FieldView::Unsigned(s.skipped_non_markdown as int),
                ),
            )
            &&& f.contains(("link_sweep_examples"@, json::FieldView::Texts(first_twenty(lines))))
            &&& lines.len() <= 20 ==> first_twenty(lines) == lines
            &&& lines.len() > 20 ==> first_twenty(lines).len() == 20 && first_twenty(
                lines,
            ).is_prefix_of(lines)
        }),
{
    let f = sweep_fields(s);
    let lines = text::views(s.examples@);
    assert(f[0] == ("link_sweep_examined"@, json::FieldView::Unsigned(s.files_examined as int)));
    assert(f[1] == ("link_sweep_modified"@, json::FieldView::Unsigned(s.files_modified as int)));
    assert(f[2] == ("link_sweep_replaced"@, json::FieldView::Unsigned(s.links_replaced as int)));
    assert(f[3] == ("link_sweep_examples"@, json::FieldView::Texts(first_twenty(lines))));
    assert(f[4] == ("link_sweep_input"@, json::FieldView::Unsigned(s.files_input as int)));
    assert(f[5] == (
        "link_sweep_skipped_outside_root"@,
        json::FieldView::Unsigned(s.skipped_outside_root as int),
    ));
    assert(f[6] == (
        "link_sweep_skipped_not_a_file"@,
        json::FieldView::Unsigned(s.skipped_not_a_file as int),
    ));
    assert(f[7] == (
        "link_sweep_skipped_non_markdown"@,
        json::FieldView::Unsigned(s.skipped_non_markdown as int),
    ));
    if lines.len() > 20 {
        assert(lines.take(20) =~= lines.subrange(0, 20));
    }
}

} // verus!
