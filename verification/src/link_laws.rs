//! What sweeping and restoring links promise of every text.

use vstd::prelude::*;
use vstd::string::*;

use crate::code_stash;
use crate::code_stash::{
    all_restored, all_tokened, interleave, is_mark, outside, stash, tokened, wholes,
};
use crate::link_sweeper;
use crate::link_sweeper::{
    all_relinked, all_swept, group, link_of, lost_target, placeholders, relink_mark, relinked,
    relinked_text, said, sweep_mark, swept, swept_text, targets, targets_in, unresolved,
    unresolved_in, wikilinks, Groups,
};
use crate::pattern;
use crate::pattern::{marker, Match, Pattern};
use crate::text;

verus! {

pub(crate) proof fn lemma_marks()
    ensures
        is_mark(sweep_mark()),
        is_mark(relink_mark()),
{
    reveal_strlit("KBLINK");
    reveal_strlit("KBRELINK");
}

// ---------------------------------------------------------------- nothing to do

proof fn lemma_none_unresolved(
    gs: Seq<Groups>,
    blocks: Seq<Seq<char>>,
    existing: Set<Seq<char>>,
    n: nat,
    i: int,
)
    requires
        unresolved(gs, blocks, existing, n).len() == 0,
        0 <= i < n <= gs.len(),
    ensures
        swept(gs[i], blocks, existing) == group(gs[i], 0),
    decreases n,
{
    if i < n - 1 {
        lemma_none_unresolved(gs, blocks, existing, (n - 1) as nat, i);
    }
}

pub proof fn lemma_no_targets(gs: Seq<Groups>, n: nat, i: int)
    requires
        targets(gs, n).len() == 0,
        0 <= i < n <= gs.len(),
    ensures
        relinked(gs[i]) == group(gs[i], 0),
    decreases n,
{
    if i < n - 1 {
        lemma_no_targets(gs, (n - 1) as nat, i);
    }
}

pub proof fn lemma_group_zero(p: Pattern, s: Seq<char>, i: int)
    requires
        0 <= i < pattern::matches_of(p, s).len(),
    ensures
        group(pattern::all_groups(s, pattern::matches_of(p, s))[i], 0) == wholes(
            s,
            pattern::matches_of(p, s),
        )[i],
{
    let ms = pattern::matches_of(p, s);
    pattern::lemma_scan(p, s, 0);
    pattern::lemma_match_bounds(p, s, ms[i]);
    let g = pattern::groups_of(s, ms[i]);
    assert(pattern::all_groups(s, ms)[i] == g);
    assert(g[0] == pattern::group_text(s, ms[i].groups[0]));
}

/// A text all of whose links lead to notes is left as it is.
pub proof fn law_resolved_text_is_kept(content: Seq<char>, existing: Set<Seq<char>>)
    requires
        unresolved_in(content, existing).len() == 0,
    ensures
        swept_text(content, existing) == content,
{
    lemma_marks();
    let st = stash(sweep_mark(), content);
    let ms = pattern::matches_of(Pattern::Wikilink, st.text);
    let gs = wikilinks(st.text);
    code_stash::law_stash_restores(sweep_mark(), content);
    code_stash::lemma_spliced_wholes(Pattern::Wikilink, st.text);
    assert forall|i: int| 0 <= i < ms.len() implies #[trigger] all_swept(gs, st.blocks, existing)[i]
        == wholes(st.text, ms)[i] by {
        lemma_none_unresolved(gs, st.blocks, existing, gs.len(), i);
        lemma_group_zero(Pattern::Wikilink, st.text, i);
    }
    assert(all_swept(gs, st.blocks, existing) =~= wholes(st.text, ms));
}

/// A text without a lost link is left as it is.
pub proof fn law_relink_keeps_text_without_targets(content: Seq<char>)
    requires
        targets_in(content).len() == 0,
    ensures
        relinked_text(content) == content,
{
    lemma_marks();
    let st = stash(relink_mark(), content);
    let ms = pattern::matches_of(Pattern::Placeholder, st.text);
    let gs = placeholders(st.text);
    code_stash::law_stash_restores(relink_mark(), content);
    code_stash::lemma_spliced_wholes(Pattern::Placeholder, st.text);
    assert forall|i: int| 0 <= i < ms.len() implies #[trigger] all_relinked(gs)[i] == wholes(
        st.text,
        ms,
    )[i] by {
        lemma_no_targets(gs, gs.len(), i);
        lemma_group_zero(Pattern::Placeholder, st.text, i);
    }
    assert(all_relinked(gs) =~= wholes(st.text, ms));
}

// ---------------------------------------------------------------- only links change

/// The first and the last character of a link stand in no token.
proof fn lemma_link_ends(p: Pattern, s: Seq<char>, m: Match)
    requires
        p is Wikilink || p is Placeholder,
        pattern::match_at(p, s, m),
    ensures
        0 <= m.start < m.end <= s.len(),
        outside(s[m.start]),
        outside(s[m.end - 1]),
{
    pattern::lemma_match_bounds(p, s, m);
    if p is Wikilink {
        let (a, b, c) = choose|a: int, b: int, c: int| pattern::link_parts(s, m, a, b, c);
        assert(s.subrange(m.start, m.start + 2)[0] == '[');
        assert(s.subrange(c, c + 2)[1] == ']');
    } else {
        let (a, b, f) = choose|a: int, b: int, f: int|
            #[trigger] pattern::lost_parts(s, m, a, b, f) && forall|
                m2: Match,
                a2: int,
                b2: int,
                f2: int,
            |
                m2.start == m.start && #[trigger] pattern::lost_parts(s, m2, a2, b2, f2) ==> a2 < a
                    || (a2 == a && b <= b2);
        reveal_strlit(" [possible linkout - elaboration needed]");
        assert((pattern::leading_char())(s[m.start]));
        let n = marker().len() as int;
        assert(s.subrange(f, f + n)[n - 1] == marker()[n - 1]);
    }
}

/// The gaps between links and the links themselves are tokened texts.
proof fn lemma_link_pieces(name: Seq<char>, p: Pattern, s: Seq<char>, n: nat)
    requires
        is_mark(name),
        p is Wikilink || p is Placeholder,
        tokened(name, s, n),
    ensures
        all_tokened(name, pattern::gaps(s, pattern::matches_of(p, s)), n),
        all_tokened(name, wholes(s, pattern::matches_of(p, s)), n),
{
    let ms = pattern::matches_of(p, s);
    pattern::lemma_scan(p, s, 0);
    assert forall|i: int| 0 <= i < ms.len() implies 0 <= (#[trigger] ms[i]).start < ms[i].end
        <= s.len() && outside(s[ms[i].start])
        && outside(s[ms[i].end - 1]) by {
        lemma_link_ends(p, s, ms[i]);
    }
    let gs = pattern::gaps(s, ms);
    assert forall|i: int| 0 <= i < gs.len() implies tokened(name, #[trigger] gs[i], n) by {
        let g = pattern::gap_start(ms, i);
        if i > 0 {
            assert(outside(s[ms[i - 1].end - 1]));
        }
        let e = if i < ms.len() {
            ms[i].start
        } else {
            s.len() as int
        };
        code_stash::lemma_tokened_between(name, s, n, g, e);
    }
    let ws = wholes(s, ms);
    assert forall|i: int| 0 <= i < ws.len() implies tokened(name, #[trigger] ws[i], n) by {
        code_stash::lemma_tokened_inclusive(name, s, n, ms[i].start, ms[i].end);
    }
}

/// A group that is cut well is a tokened text.
proof fn lemma_group_tokened(name: Seq<char>, s: Seq<char>, m: Match, n: nat, i: int)
    requires
        is_mark(name),
        tokened(name, s, n),
        0 <= i < m.groups.len(),
        m.groups[i] matches Some((a, b)) ==> 0 < a <= b < s.len() && outside(s[a - 1]) && outside(
            s[b],
        ),
    ensures
        tokened(name, group(pattern::groups_of(s, m), i), n),
{
    let g = pattern::groups_of(s, m);
    assert(g[i] == pattern::group_text(s, m.groups[i]));
    match m.groups[i] {
        Some((a, b)) => {
            code_stash::lemma_tokened_between(name, s, n, a, b);
        },
        None => {
            code_stash::lemma_plain_tokened(name, Seq::empty(), n);
        },
    }
}

proof fn lemma_literals_tokened(name: Seq<char>, n: nat)
    ensures
        tokened(name, marker(), n),
        tokened(name, " (§"@, n),
        tokened(name, ")"@, n),
        tokened(name, "#"@, n),
        tokened(name, "[["@, n),
        tokened(name, "]]"@, n),
{
    reveal_strlit(" [possible linkout - elaboration needed]");
    reveal_strlit(" (§");
    reveal_strlit(")");
    reveal_strlit("#");
    reveal_strlit("[[");
    reveal_strlit("]]");
    code_stash::lemma_plain_tokened(name, marker(), n);
    code_stash::lemma_plain_tokened(name, " (§"@, n);
    code_stash::lemma_plain_tokened(name, ")"@, n);
    code_stash::lemma_plain_tokened(name, "#"@, n);
    code_stash::lemma_plain_tokened(name, "[["@, n);
    code_stash::lemma_plain_tokened(name, "]]"@, n);
}

/// What stands in place of a wikilink is a tokened text.
proof fn lemma_swept_tokened(
    name: Seq<char>,
    s: Seq<char>,
    m: Match,
    n: nat,
    blocks: Seq<Seq<char>>,
    existing: Set<Seq<char>>,
)
    requires
        is_mark(name),
        tokened(name, s, n),
        pattern::wikilink_at(s, m),
    ensures
        tokened(name, swept(pattern::groups_of(s, m), blocks, existing), n),
{
    let g = pattern::groups_of(s, m);
    let (a, b, c) = choose|a: int, b: int, c: int| pattern::link_parts(s, m, a, b, c);
    lemma_link_ends(Pattern::Wikilink, s, m);
    assert(s.subrange(m.start, m.start + 2)[1] == '[');
    assert(s.subrange(c, c + 2)[0] == ']');
    assert(s[m.start + 1] == '[');
    assert(s[c] == ']');
    assert(outside(s[a]) && outside(s[b]) && outside(s[c]));
    lemma_group_tokened(name, s, m, n, 1);
    lemma_group_tokened(name, s, m, n, 3);
    lemma_group_tokened(name, s, m, n, 5);
    code_stash::lemma_tokened_trim(name, group(g, 1), n);
    code_stash::lemma_tokened_trim(name, group(g, 3), n);
    code_stash::lemma_tokened_trim(name, group(g, 5), n);
    code_stash::lemma_tokened_inclusive(name, s, n, m.start, m.end);
    assert(g[0] == pattern::group_text(s, m.groups[0]));
    lemma_literals_tokened(name, n);
    let l = link_of(g);
    let display = match l.alias {
        Some(x) => x,
        None => l.target,
    };
    match l.section {
        Some(x) => {
            code_stash::lemma_tokened_join(name, display, " (§"@, n);
            code_stash::lemma_tokened_join(name, display + " (§"@, x, n);
            code_stash::lemma_tokened_join(name, display + " (§"@ + x, ")"@, n);
            code_stash::lemma_tokened_join(name, display + " (§"@ + x + ")"@, marker(), n);
        },
        None => {
            code_stash::lemma_tokened_join(name, display, marker(), n);
        },
    }
}

/// What stands in place of a lost link is a tokened text.
proof fn lemma_relinked_tokened(name: Seq<char>, s: Seq<char>, m: Match, n: nat)
    requires
        is_mark(name),
        tokened(name, s, n),
        pattern::placeholder_at(s, m),
    ensures
        tokened(name, relinked(pattern::groups_of(s, m)), n),
{
    let g = pattern::groups_of(s, m);
    let (a, b, f) = choose|a: int, b: int, f: int|
        #[trigger] pattern::lost_parts(s, m, a, b, f) && forall|
            m2: Match,
            a2: int,
            b2: int,
            f2: int,
        |
            m2.start == m.start && #[trigger] pattern::lost_parts(s, m2, a2, b2, f2) ==> a2 < a || (
            a2 == a && b <= b2);
    lemma_link_ends(Pattern::Placeholder, s, m);
    reveal_strlit(" [possible linkout - elaboration needed]");
    let k = marker().len() as int;
    assert(s.subrange(f, f + k)[0] == marker()[0]);
    assert(s[f] == ' ');
    if b < f {
        assert(s.subrange(b, b + 3)[0] == ' ');
        assert(s.subrange(b, b + 3)[2] == '§');
        assert(s[b] == ' ');
        assert(s[b + 2] == '§');
    }
    assert((pattern::leading_char())(s[a - 1]));
    assert(outside(s[a - 1]));
    lemma_group_tokened(name, s, m, n, 2);
    lemma_group_tokened(name, s, m, n, 3);
    code_stash::lemma_tokened_inclusive(name, s, n, m.start, a);
    code_stash::lemma_tokened_inclusive(name, s, n, m.start, m.end);
    assert(g[0] == pattern::group_text(s, m.groups[0]));
    assert(g[1] == pattern::group_text(s, m.groups[1]));
    code_stash::lemma_tokened_trim(name, group(g, 2), n);
    code_stash::lemma_tokened_trim(name, group(g, 3), n);
    lemma_literals_tokened(name, n);
    let display = text::trim(group(g, 2));
    if let Some(x) = said(g, 3) {
        code_stash::lemma_tokened_join(name, display, "#"@, n);
        code_stash::lemma_tokened_join(name, display + "#"@, x, n);
    }
    if let Some(t) = lost_target(g) {
        let lead = group(g, 1);
        code_stash::lemma_tokened_join(name, lead, "[["@, n);
        code_stash::lemma_tokened_join(name, lead + "[["@, t, n);
        code_stash::lemma_tokened_join(name, lead + "[["@ + t, "]]"@, n);
    }
}

/// The texts around the links of a text that code was put aside from, with the code
/// put back.
pub open spec fn surroundings(name: Seq<char>, p: Pattern, content: Seq<char>) -> Seq<Seq<char>> {
    let st = stash(name, content);
    all_restored(name, pattern::gaps(st.text, pattern::matches_of(p, st.text)), st.blocks)
}

/// Sweeping changes the links that it finds and nothing else: around the links the
/// text, code and all, is the same before and after.
pub proof fn law_sweep_changes_links_only(content: Seq<char>, existing: Set<Seq<char>>)
    ensures
        ({
            let st = stash(sweep_mark(), content);
            let ms = pattern::matches_of(Pattern::Wikilink, st.text);
            let around = surroundings(sweep_mark(), Pattern::Wikilink, content);
            &&& content == interleave(
                around,
                all_restored(sweep_mark(), wholes(st.text, ms), st.blocks),
                ms.len(),
            )
            &&& swept_text(content, existing) == interleave(
                around,
                all_restored(
                    sweep_mark(),
                    all_swept(wikilinks(st.text), st.blocks, existing),
                    st.blocks,
                ),
                ms.len(),
            )
        }),
{
    lemma_marks();
    let name = sweep_mark();
    let st = stash(name, content);
    let n = st.blocks.len();
    let ms = pattern::matches_of(Pattern::Wikilink, st.text);
    let gs = wikilinks(st.text);
    let reps = all_swept(gs, st.blocks, existing);
    code_stash::law_stash_restores(name, content);
    lemma_link_pieces(name, Pattern::Wikilink, st.text, n);
    code_stash::lemma_spliced_wholes(Pattern::Wikilink, st.text);
    code_stash::lemma_restore_interleaved(
        name,
        pattern::gaps(st.text, ms),
        wholes(st.text, ms),
        st.blocks,
        ms.len(),
    );
    pattern::lemma_scan(Pattern::Wikilink, st.text, 0);
    assert forall|i: int| 0 <= i < reps.len() implies tokened(name, #[trigger] reps[i], n) by {
        assert(pattern::match_at(Pattern::Wikilink, st.text, ms[i]));
        lemma_swept_tokened(name, st.text, ms[i], n, st.blocks, existing);
    }
    code_stash::lemma_restore_interleaved(
        name,
        pattern::gaps(st.text, ms),
        reps,
        st.blocks,
        ms.len(),
    );
}

/// Restoring links changes the lost links that it finds and nothing else: around
/// them the text, code and all, is the same before and after.
pub proof fn law_relink_changes_links_only(content: Seq<char>)
    ensures
        ({
            let st = stash(relink_mark(), content);
            let ms = pattern::matches_of(Pattern::Placeholder, st.text);
            let around = surroundings(relink_mark(), Pattern::Placeholder, content);
            &&& content == interleave(
                around,
                all_restored(relink_mark(), wholes(st.text, ms), st.blocks),
                ms.len(),
            )
            &&& relinked_text(content) == interleave(
                around,
                all_restored(relink_mark(), all_relinked(placeholders(st.text)), st.blocks),
                ms.len(),
            )
        }),
{
    lemma_marks();
    let name = relink_mark();
    let st = stash(name, content);
    let n = st.blocks.len();
    let ms = pattern::matches_of(Pattern::Placeholder, st.text);
    let gs = placeholders(st.text);
    let reps = all_relinked(gs);
    code_stash::law_stash_restores(name, content);
    lemma_link_pieces(name, Pattern::Placeholder, st.text, n);
    code_stash::lemma_spliced_wholes(Pattern::Placeholder, st.text);
    code_stash::lemma_restore_interleaved(
        name,
        pattern::gaps(st.text, ms),
        wholes(st.text, ms),
        st.blocks,
        ms.len(),
    );
    pattern::lemma_scan(Pattern::Placeholder, st.text, 0);
    assert forall|i: int| 0 <= i < reps.len() implies tokened(name, #[trigger] reps[i], n) by {
        assert(pattern::match_at(Pattern::Placeholder, st.text, ms[i]));
        lemma_relinked_tokened(name, st.text, ms[i], n);
    }
    code_stash::lemma_restore_interleaved(
        name,
        pattern::gaps(st.text, ms),
        reps,
        st.blocks,
        ms.len(),
    );
}

} // verus!
