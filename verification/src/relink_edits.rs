//! Restoring links leaves code where it is, and a second time nothing is left to restore.

use vstd::prelude::*;
use vstd::string::*;

use crate::code_stash;
use crate::code_stash::{hidden, interleave, nul, set_aside, stash, token};
use crate::edits;
use crate::edits::{
    all_allowed, all_plain, allowed, codeless, keeping, piece, plain, spelled, whole, Edit,
};
use crate::json;
use crate::link_laws;
use crate::link_sweeper::{
    all_relinked, examples, group, handed_before, is_markdown, is_relink, lost_target,
    placeholders, relink_mark, relink_prose, relinked, relinked_text, restored_count,
    restored_examples, restored_in, rewrites, targets_in, visit, visits, RelinkStats, SweptFile,
    Visit,
};
use crate::paths;
use crate::paths::components;
use crate::pattern;
use crate::pattern::{gap, gaps, lost_parts, marker, matches_of, placeholder_at, Match, Pattern};
use crate::relink_laws;
use crate::relink_laws::{gap_end, law_relink_prose_idempotent};
use crate::text;

verus! {

/// Whether edits of plain text turn one text into another.
spec fn turns(e: Seq<Edit>, from: Seq<char>, to: Seq<char>) -> bool {
    all_allowed(e) && codeless(e) && whole(e, false) == from && whole(e, true) == to
}

proof fn lemma_turns_add(
    a: Seq<Edit>,
    b: Seq<Edit>,
    from: Seq<char>,
    to: Seq<char>,
    from2: Seq<char>,
    to2: Seq<char>,
)
    requires
        turns(a, from, to),
        turns(b, from2, to2),
    ensures
        turns(a + b, from + from2, to + to2),
{
    edits::lemma_whole_add(a, b, false);
    edits::lemma_whole_add(a, b, true);
    assert forall|i: int| 0 <= i < (a + b).len() implies allowed(#[trigger] (a + b)[i]) && !((a
        + b)[i] is Code) by {
        if i < a.len() {
            assert((a + b)[i] == a[i]);
        } else {
            assert((a + b)[i] == b[i - a.len()]);
        }
    }
}

proof fn lemma_turns_one(d: Edit)
    requires
        allowed(d),
        !(d is Code),
    ensures
        turns(seq![d], piece(d, false), piece(d, true)),
{
    edits::lemma_whole_one(d, false);
    edits::lemma_whole_one(d, true);
}

proof fn lemma_turns_keeping(s: Seq<char>)
    ensures
        turns(keeping(s), s, s),
{
    edits::lemma_keeping(s, false);
    edits::lemma_keeping(s, true);
}

/// Where the trimmed text stands in a text.
proof fn trimmed_part(s: Seq<char>) -> (r: (int, int))
    ensures
        0 <= r.0 <= r.1 <= s.len(),
        text::trim(s) == s.subrange(r.0, r.1),
        forall|i: int| 0 <= i < r.0 ==> text::white(#[trigger] s[i]),
        forall|i: int| r.1 <= i < s.len() ==> text::white(#[trigger] s[i]),
{
    let i = start_part(s);
    let u = s.skip(i);
    let j = end_part(u);
    assert(u.take(j) =~= s.subrange(i, i + j));
    assert forall|k: int| i + j <= k < s.len() implies text::white(#[trigger] s[k]) by {
        assert(u[k - i] == s[k]);
    }
    (i, i + j)
}

proof fn start_part(s: Seq<char>) -> (i: int)
    ensures
        0 <= i <= s.len(),
        text::trim_start(s) == s.skip(i),
        forall|k: int| 0 <= k < i ==> text::white(#[trigger] s[k]),
    decreases s.len(),
{
    if s.len() > 0 && text::white(s[0]) {
        let u = s.skip(1);
        let i = start_part(u);
        assert(u.skip(i) =~= s.skip(i + 1));
        assert forall|k: int| 0 <= k < i + 1 implies text::white(#[trigger] s[k]) by {
            if k > 0 {
                assert(u[k - 1] == s[k]);
            }
        }
        i + 1
    } else {
        assert(s.skip(0) =~= s);
        0
    }
}

proof fn end_part(s: Seq<char>) -> (j: int)
    ensures
        0 <= j <= s.len(),
        text::trim_end(s) == s.take(j),
        forall|k: int| j <= k < s.len() ==> text::white(#[trigger] s[k]),
    decreases s.len(),
{
    if s.len() > 0 && text::white(s.last()) {
        let u = s.drop_last();
        let j = end_part(u);
        assert(u.take(j) =~= s.take(j));
        assert forall|k: int| j <= k < s.len() implies text::white(#[trigger] s[k]) by {
            if k < u.len() {
                assert(u[k] == s[k]);
            }
        }
        j
    } else {
        assert(s.take(s.len() as int) =~= s);
        s.len() as int
    }
}

// ---------------------------------------------------------------- one link

proof fn lemma_marker_plain()
    ensures
        all_plain(marker()),
{
    reveal_strlit(" [possible linkout - elaboration needed]");
    let m = marker();
    assert forall|i: int| 0 <= i < m.len() implies plain(#[trigger] m[i]) by {}
}

/// White space and the characters around a section are plain.
proof fn lemma_plain_part(s: Seq<char>, from: int, to: int)
    requires
        0 <= from <= to <= s.len(),
        forall|i: int| from <= i < to ==> plain(#[trigger] s[i]),
    ensures
        all_plain(s.subrange(from, to)),
{
    assert forall|i: int| 0 <= i < to - from implies plain(#[trigger] s.subrange(from, to)[i]) by {
        assert(s.subrange(from, to)[i] == s[from + i]);
    }
}

/// The edits that restore what a lost link says up to the end of its text.
proof fn edit_text(w: Seq<char>, start: int, a: int, b: int, i: int, j: int) -> (e: Seq<Edit>)
    requires
        0 <= start < a <= i <= j <= b <= w.len(),
        pattern::run(w, start, a, pattern::leading_char()),
        forall|k: int| a <= k < i ==> plain(#[trigger] w[k]),
    ensures
        turns(e, w.subrange(start, j), w.subrange(start, a) + "[["@ + w.subrange(i, j)),
{
    reveal_strlit("[[");
    let x = keeping(w.subrange(start, a - 1));
    let d = Edit::Behind { c: w.subrange(a - 1, a), from: w.subrange(a, i), to: "[["@ };
    let y = keeping(w.subrange(i, j));
    lemma_turns_keeping(w.subrange(start, a - 1));
    lemma_turns_keeping(w.subrange(i, j));
    lemma_plain_part(w, a, i);
    assert(w.subrange(a - 1, a)[0] == w[a - 1]);
    assert((pattern::leading_char())(w[a - 1]));
    lemma_turns_one(d);
    lemma_turns_add(
        x,
        seq![d],
        w.subrange(start, a - 1),
        w.subrange(start, a - 1),
        piece(d, false),
        piece(d, true),
    );
    lemma_turns_add(
        x + seq![d],
        y,
        w.subrange(start, a - 1) + piece(d, false),
        w.subrange(start, a - 1) + piece(d, true),
        w.subrange(i, j),
        w.subrange(i, j),
    );
    assert(w.subrange(start, a - 1) + piece(d, false) + w.subrange(i, j) =~= w.subrange(start, j));
    assert(w.subrange(start, a - 1) + piece(d, true) + w.subrange(i, j) =~= w.subrange(start, a)
        + "[["@ + w.subrange(i, j));
    x + seq![d] + y
}

/// The edits that turn plain text into other plain text.
proof fn edit_plain(w: Seq<char>, from: int, to: int, new: Seq<char>) -> (e: Seq<Edit>)
    requires
        0 <= from < to <= w.len(),
        forall|k: int| from <= k < to ==> plain(#[trigger] w[k]),
        new.len() > 0,
        all_plain(new),
    ensures
        turns(e, w.subrange(from, to), new),
{
    let d = Edit::Swap { from: w.subrange(from, to), to: new };
    lemma_plain_part(w, from, to);
    lemma_turns_one(d);
    seq![d]
}

/// The edits that restore a link without a section.
proof fn edit_short(
    w: Seq<char>,
    start: int,
    a: int,
    b: int,
    i: int,
    j: int,
    end: int,
) -> (e: Seq<Edit>)
    requires
        0 <= start < a <= i <= j <= b < end <= w.len(),
        pattern::run(w, start, a, pattern::leading_char()),
        forall|k: int| a <= k < i ==> plain(#[trigger] w[k]),
        forall|k: int| j <= k < end ==> plain(#[trigger] w[k]),
    ensures
        turns(
            e,
            w.subrange(start, end),
            w.subrange(start, a) + "[["@ + w.subrange(i, j) + "]]"@,
        ),
{
    reveal_strlit("]]");
    let x = edit_text(w, start, a, b, i, j);
    let y = edit_plain(w, j, end, "]]"@);
    lemma_turns_add(
        x,
        y,
        w.subrange(start, j),
        w.subrange(start, a) + "[["@ + w.subrange(i, j),
        w.subrange(j, end),
        "]]"@,
    );
    assert(w.subrange(start, j) + w.subrange(j, end) =~= w.subrange(start, end));
    x + y
}

/// The edits that restore a link with a section.
proof fn edit_long(
    w: Seq<char>,
    start: int,
    a: int,
    b: int,
    i: int,
    j: int,
    k: int,
    l: int,
    end: int,
) -> (e: Seq<Edit>)
    requires
        0 <= start < a <= i <= j <= b < k <= l < end <= w.len(),
        pattern::run(w, start, a, pattern::leading_char()),
        forall|n: int| a <= n < i ==> plain(#[trigger] w[n]),
        forall|n: int| j <= n < k ==> plain(#[trigger] w[n]),
        forall|n: int| l <= n < end ==> plain(#[trigger] w[n]),
    ensures
        turns(
            e,
            w.subrange(start, end),
            w.subrange(start, a) + "[["@ + (w.subrange(i, j) + "#"@ + w.subrange(k, l)) + "]]"@,
        ),
{
    reveal_strlit("]]");
    reveal_strlit("#");
    let x = edit_text(w, start, a, b, i, j);
    let y = edit_plain(w, j, k, "#"@);
    let v = keeping(w.subrange(k, l));
    let z = edit_plain(w, l, end, "]]"@);
    let lead = w.subrange(start, a) + "[["@ + w.subrange(i, j);
    lemma_turns_keeping(w.subrange(k, l));
    lemma_turns_add(x, y, w.subrange(start, j), lead, w.subrange(j, k), "#"@);
    lemma_turns_add(
        x + y,
        v,
        w.subrange(start, j) + w.subrange(j, k),
        lead + "#"@,
        w.subrange(k, l),
        w.subrange(k, l),
    );
    lemma_turns_add(
        x + y + v,
        z,
        w.subrange(start, j) + w.subrange(j, k) + w.subrange(k, l),
        lead + "#"@ + w.subrange(k, l),
        w.subrange(l, end),
        "]]"@,
    );
    assert(w.subrange(start, j) + w.subrange(j, k) + w.subrange(k, l) + w.subrange(l, end)
        =~= w.subrange(start, end));
    assert(lead + "#"@ + w.subrange(k, l) + "]]"@ =~= w.subrange(start, a) + "[["@ + (w.subrange(
        i,
        j,
    ) + "#"@ + w.subrange(k, l)) + "]]"@);
    x + y + v + z
}

/// What stands where around the parts of a lost link that are restored.
proof fn lemma_around(w: Seq<char>, m: Match, a: int, b: int, f: int)
    requires
        lost_parts(w, m, a, b, f),
    ensures
        m.end <= w.len(),
        f < m.end,
        forall|i: int| f <= i < m.end ==> plain(#[trigger] w[i]),
        forall|i: int| a <= i < b ==> #[trigger] w[i] != '\n',
        b < f ==> forall|i: int| b + 3 <= i < f - 1 ==> #[trigger] w[i] != '\n',
        b < f ==> forall|i: int| b <= i < b + 3 ==> plain(#[trigger] w[i]),
        b < f ==> plain(w[f - 1]),
{
    relink_laws::lemma_marker();
    lemma_marker_plain();
    assert forall|i: int| f <= i < m.end implies plain(#[trigger] w[i]) by {
        relink_laws::lemma_occurs(w, marker(), f, i - f);
        assert(plain(marker()[i - f]));
    }
    assert forall|i: int| a <= i < b implies #[trigger] w[i] != '\n' by {
        assert((pattern::display_char())(w[i]));
    }
    if b < f {
        assert forall|i: int| b + 3 <= i < f - 1 implies #[trigger] w[i] != '\n' by {
            assert((pattern::lost_section_char())(w[i]));
        }
        assert forall|i: int| b <= i < b + 3 implies plain(#[trigger] w[i]) by {
            relink_laws::lemma_occurs(w, seq![' ', '(', '§'], b, i - b);
        }
    }
}

/// The edits that restore a lost link.
proof fn edit_link(w: Seq<char>, m: Match) -> (e: Seq<Edit>)
    requires
        placeholder_at(w, m),
    ensures
        turns(e, w.subrange(m.start, m.end), relinked(pattern::groups_of(w, m))),
{
    let (a, b, f) = relink_laws::choice_of(w, m);
    let g = pattern::groups_of(w, m);
    assert(g[0] == pattern::group_text(w, m.groups[0]));
    assert(g[1] == pattern::group_text(w, m.groups[1]));
    assert(g[2] == pattern::group_text(w, m.groups[2]));
    assert(g[3] == pattern::group_text(w, m.groups[3]));
    if lost_target(g) is None {
        lemma_turns_keeping(w.subrange(m.start, m.end));
        keeping(w.subrange(m.start, m.end))
    } else {
        lemma_around(w, m, a, b, f);
        let d = w.subrange(a, b);
        let (i0, j0) = trimmed_part(d);
        let i = a + i0;
        let j = a + j0;
        assert(d.subrange(i0, j0) =~= w.subrange(i, j));
        assert forall|k: int| a <= k < i implies plain(#[trigger] w[k]) by {
            assert(d[k - a] == w[k]);
        }
        assert forall|k: int| j <= k < b implies plain(#[trigger] w[k]) by {
            assert(d[k - a] == w[k]);
        }
        if b < f {
            let x = w.subrange(b + 3, f - 1);
            let (k0, l0) = trimmed_part(x);
            let k = b + 3 + k0;
            let l = b + 3 + l0;
            assert(x.subrange(k0, l0) =~= w.subrange(k, l));
            assert forall|n: int| b + 3 <= n < k implies plain(#[trigger] w[n]) by {
                assert(x[n - b - 3] == w[n]);
            }
            assert forall|n: int| l <= n < f - 1 implies plain(#[trigger] w[n]) by {
                assert(x[n - b - 3] == w[n]);
            }
            if text::trim(x).len() > 0 {
                edit_long(w, m.start, a, b, i, j, k, l, m.end)
            } else {
                assert(k == l);
                edit_short(w, m.start, a, b, i, j, m.end)
            }
        } else {
            assert(group(g, 3).len() == 0);
            assert(text::trim(group(g, 3)).len() == 0);
            edit_short(w, m.start, a, b, i, j, m.end)
        }
    }
}

// ---------------------------------------------------------------- whole texts

/// The edits that restore the first `n` links.
proof fn edit_links(w: Seq<char>, n: nat) -> (e: Seq<Edit>)
    requires
        n <= matches_of(Pattern::Placeholder, w).len(),
    ensures
        turns(
            e,
            w.take(gap_end(w, matches_of(Pattern::Placeholder, w), n as int)),
            interleave(
                gaps(w, matches_of(Pattern::Placeholder, w)),
                all_relinked(placeholders(w)),
                n,
            ),
        ),
    decreases n,
{
    let ms = matches_of(Pattern::Placeholder, w);
    let gs = gaps(w, ms);
    let bs = all_relinked(placeholders(w));
    let to = gap_end(w, ms, n as int);
    pattern::lemma_scan(Pattern::Placeholder, w, 0);
    assert(gs[n as int] == gap(w, ms, n as int));
    lemma_turns_keeping(gs[n as int]);
    if n == 0 {
        assert(gs[0] =~= w.take(to));
        keeping(gs[0])
    } else {
        let k = (n - 1) as nat;
        let m = ms[k as int];
        let x = edit_links(w, k);
        assert(pattern::match_at(Pattern::Placeholder, w, m));
        assert(placeholders(w)[k as int] == pattern::groups_of(w, m));
        let y = edit_link(w, m);
        lemma_turns_add(
            x,
            y,
            w.take(m.start),
            interleave(gs, bs, k),
            w.subrange(m.start, m.end),
            bs[k as int],
        );
        lemma_turns_add(
            x + y,
            keeping(gs[n as int]),
            w.take(m.start) + w.subrange(m.start, m.end),
            interleave(gs, bs, k) + bs[k as int],
            gs[n as int],
            gs[n as int],
        );
        if n < ms.len() {
            assert(m.end <= ms[n as int].start);
        }
        assert(w.take(m.start) + w.subrange(m.start, m.end) + gs[n as int] =~= w.take(to));
        x + y + keeping(gs[n as int])
    }
}

/// The edits that restore the links of prose.
proof fn edit_prose(w: Seq<char>) -> (e: Seq<Edit>)
    ensures
        turns(e, w, relink_prose(w)),
{
    let e = edit_links(w, matches_of(Pattern::Placeholder, w).len());
    assert(w.take(w.len() as int) =~= w);
    e
}

/// Restoring links leaves every piece of code where it is: the code of the new text is
/// the code of the old one, and without it the new text is the old one with its links
/// restored.
pub proof fn law_relink_keeps_code(content: Seq<char>)
    ensures
        stash(relink_mark(), relinked_text(content)).blocks == stash(relink_mark(), content).blocks,
        stash(relink_mark(), relinked_text(content)).text == relink_prose(
            stash(relink_mark(), content).text,
        ),
{
    let name = relink_mark();
    link_laws::lemma_marks();
    let plain_text = hidden(name, content);
    let fenced = set_aside(name, Pattern::Fenced, plain_text, 1);
    let n = 1 + fenced.blocks.len();
    let inline = set_aside(name, Pattern::Inline, fenced.text, n);
    let e = edit_prose(inline.text);
    // Through the inline code.
    let e1 = edits::lift(name, Pattern::Inline, fenced.text, n, e);
    edits::lemma_settled_after(Pattern::Inline, e1);
    edits::lemma_settled(name, Pattern::Inline, e1, true, n);
    // Through the fenced blocks.
    edits::lemma_spelled(e1, false);
    edits::lemma_spelled(e1, true);
    let e2 = edits::lift(name, Pattern::Fenced, plain_text, 1, spelled(e1));
    edits::lemma_settled_after(Pattern::Fenced, e2);
    edits::lemma_settled(name, Pattern::Fenced, e2, true, 1);
    // Through the NULs.
    code_stash::lemma_hidden(name, content);
    edits::lemma_spelled(e2, false);
    edits::lemma_spelled(e2, true);
    edits::lemma_edits_tokened(name, spelled(e2), 1);
    let new = text::replace_all(whole(e2, true), token(name, 0), nul());
    code_stash::lemma_hidden_again(name, whole(e2, true));
    assert(stash(name, new).text == relink_prose(inline.text));
    assert(stash(name, new).blocks == stash(name, content).blocks);
    code_stash::law_stash_restores(name, new);
    assert(relinked_text(content) == new);
}

/// Restoring links leaves no lost link outside code to restore, and doing so again
/// changes nothing.
pub proof fn law_relink_idempotent(content: Seq<char>)
    ensures
        relinked_text(relinked_text(content)) == relinked_text(content),
        targets_in(relinked_text(content)) == Seq::<Seq<char>>::empty(),
{
    let name = relink_mark();
    let new = relinked_text(content);
    link_laws::lemma_marks();
    law_relink_keeps_code(content);
    law_relink_prose_idempotent(stash(name, content).text);
    code_stash::law_stash_restores(name, new);
}

// ---------------------------------------------------------------- files

/// What a file holds once all that was to be written is written.
pub open spec fn held_after(files: Seq<SweptFile>, agent_root: Seq<char>, i: int) -> Option<
    Seq<char>,
> {
    if restored_in(files, agent_root, i).len() > 0 {
        Some(relinked_text(files[i].content.unwrap()@))
    } else {
        json::text_view(files[i].content)
    }
}

/// Whether `after` is how the files stand once all that was to be written is written.
/// A file that was handed over twice is told by the first time.
pub open spec fn all_written(
    files: Seq<SweptFile>,
    after: Seq<SweptFile>,
    agent_root: Seq<char>,
) -> bool {
    &&& after.len() == files.len()
    &&& forall|i: int|
        #![trigger files[i]]
        #![trigger after[i]]
        0 <= i < files.len() ==> after[i].path@ == files[i].path@ && after[i].is_file
            == files[i].is_file
    &&& forall|i: int|
        0 <= i < files.len() && !#[trigger] handed_before(files, i) ==> json::text_view(
            after[i].content,
        ) == held_after(files, agent_root, i)
}

proof fn lemma_same_visit(
    files: Seq<SweptFile>,
    after: Seq<SweptFile>,
    agent_root: Seq<char>,
    i: int,
)
    requires
        all_written(files, after, agent_root),
        0 <= i < files.len(),
    ensures
        visit(after, agent_root, i) == visit(files, agent_root, i),
        restored_in(after, agent_root, i).len() == 0,
{
    if handed_before(files, i) {
        let j = choose|j: int|
            0 <= j < i && components((#[trigger] files[j]).path@) == components(files[i].path@);
        assert(components(after[j].path@) == components(after[i].path@));
    }
    if handed_before(after, i) {
        let j = choose|j: int|
            0 <= j < i && components((#[trigger] after[j]).path@) == components(after[i].path@);
        assert(components(files[j].path@) == components(files[i].path@));
    }
    if visit(files, agent_root, i) == Visit::Examined {
        let content = files[i].content.unwrap()@;
        law_relink_idempotent(content);
    }
}

/// The first `n` files once all that was to be written is written.
proof fn lemma_second_run(
    files: Seq<SweptFile>,
    after: Seq<SweptFile>,
    agent_root: Seq<char>,
    n: nat,
)
    requires
        all_written(files, after, agent_root),
        n <= files.len(),
    ensures
        restored_count(after, agent_root, n) == 0,
        restored_examples(after, agent_root, n) == Seq::<Seq<char>>::empty(),
        rewrites(after, agent_root, n) == Seq::<(Seq<char>, Seq<char>)>::empty(),
        visits(after, agent_root, Visit::Examined, n) == visits(
            files,
            agent_root,
            Visit::Examined,
            n,
        ),
    decreases n,
{
    if n > 0 {
        lemma_second_run(files, after, agent_root, (n - 1) as nat);
        lemma_same_visit(files, after, agent_root, n - 1);
        assert(examples(after[n - 1].path@, restored_in(after, agent_root, n - 1)) =~= Seq::<
            Seq<char>,
        >::empty());
    }
}

/// Restoring links in files a second time, once all that was to be written is written,
/// looks into the same files, finds no lost link and writes nothing.
pub proof fn law_relink_files_idempotent(
    files: Seq<SweptFile>,
    after: Seq<SweptFile>,
    agent_root: Seq<char>,
    s: RelinkStats,
)
    requires
        all_written(files, after, agent_root),
        is_relink(s, after, agent_root, after.len()),
    ensures
        s.links_restored == 0,
        s.files_modified == 0,
        s.examples@.len() == 0,
        s.files_examined == visits(files, agent_root, Visit::Examined, files.len()),
        rewrites(after, agent_root, after.len()) == Seq::<(Seq<char>, Seq<char>)>::empty(),
{
    lemma_second_run(files, after, agent_root, files.len());
    assert(text::views(s.examples@).len() == 0);
}

/// Every file that is to be written is a markdown file under the agent's directory.
pub proof fn law_relink_files_confined(
    files: Seq<SweptFile>,
    agent_root: Seq<char>,
    n: nat,
    j: int,
)
    requires
        n <= files.len(),
        0 <= j < rewrites(files, agent_root, n).len(),
    ensures
        paths::under(rewrites(files, agent_root, n)[j].0, agent_root),
        is_markdown(rewrites(files, agent_root, n)[j].0),
    decreases n,
{
    let before = rewrites(files, agent_root, (n - 1) as nat);
    if j < before.len() {
        law_relink_files_confined(files, agent_root, (n - 1) as nat, j);
    } else {
        assert(visit(files, agent_root, n - 1) == Visit::Examined);
    }
}

/// A file outside the agent's directory, or of another kind than markdown, is not
/// looked into and keeps what it holds.
pub proof fn law_other_files_are_kept(files: Seq<SweptFile>, agent_root: Seq<char>, i: int)
    requires
        0 <= i < files.len(),
        !paths::under(files[i].path@, agent_root) || !is_markdown(files[i].path@),
    ensures
        visit(files, agent_root, i) != Visit::Examined,
        held_after(files, agent_root, i) == json::text_view(files[i].content),
{
}

} // verus!
