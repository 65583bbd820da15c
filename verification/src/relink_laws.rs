//! Restoring links a second time changes nothing.

use vstd::prelude::*;
use vstd::string::*;

use crate::code_stash;
use crate::code_stash::{interleave, wholes};
use crate::link_laws;
use crate::link_sweeper::{
    all_relinked, group, lost_target, placeholders, relink_prose, relinked, said, targets,
};
use crate::pattern;
use crate::pattern::{
    gap, gap_start, gaps, lost_parts, marker, matches_of, placeholder_at, spread, starts_at, Match,
    Pattern,
};
use crate::text;
use crate::text::occurs_at;

verus! {

/// Whether a lost link has the longest leading part and, of those, the shortest
/// text.
#[verifier::opaque]
pub(crate) open spec fn first_choice(s: Seq<char>, m: Match, a: int, b: int) -> bool {
    forall|m2: Match, a2: int, b2: int, f2: int|
        m2.start == m.start && #[trigger] lost_parts(s, m2, a2, b2, f2) ==> a2 < a || (a2 == a && b
            <= b2)
}

/// The parts of a match, which are of first choice.
pub(crate) proof fn choice_of(s: Seq<char>, m: Match) -> (r: (int, int, int))
    requires
        placeholder_at(s, m),
    ensures
        lost_parts(s, m, r.0, r.1, r.2),
        first_choice(s, m, r.0, r.1),
{
    reveal(first_choice);
    choose|a: int, b: int, f: int|
        #[trigger] lost_parts(s, m, a, b, f) && forall|m2: Match, a2: int, b2: int, f2: int|
            m2.start == m.start && #[trigger] lost_parts(s, m2, a2, b2, f2) ==> a2 < a || (a2 == a
                && b <= b2)
}

/// Where a lost link has any parts it has parts of first choice.
proof fn lemma_first_choice(s: Seq<char>, m: Match, a: int, b: int, f: int)
    requires
        lost_parts(s, m, a, b, f),
    ensures
        starts_at(Pattern::Placeholder, s, m.start),
    decreases s.len() - a, b,
{
    reveal(first_choice);
    if first_choice(s, m, a, b) {
        assert(placeholder_at(s, m));
        assert(pattern::match_at(Pattern::Placeholder, s, m));
    } else {
        let (m2, a2, b2, f2) = choose|m2: Match, a2: int, b2: int, f2: int|
            m2.start == m.start && #[trigger] lost_parts(s, m2, a2, b2, f2) && !(a2 < a || (a2 == a
                && b <= b2));
        lemma_first_choice(s, m2, a2, b2, f2);
    }
}

/// The parts of a lost link that are not told apart by its start.
spec fn lost_groups(start: int, a: int, b: int, f: int) -> Match {
    let end = f + marker().len();
    Match {
        start,
        end,
        groups: seq![
            Some((start, end)),
            Some((start, a)),
            Some((a, b)),
            if b < f {
                Some((b + 3, f - 1))
            } else {
                None
            },
        ],
    }
}

pub(crate) proof fn lemma_marker()
    ensures
        marker().len() == 40,
        marker()[0] == ' ',
        marker()[1] == '[',
        marker()[2] == 'p',
        marker()[39] == ']',
        forall|i: int| 0 <= i < 40 && i != 1 ==> #[trigger] marker()[i] != '[',
        forall|i: int| 0 <= i < 40 ==> #[trigger] marker()[i] != '\n',
{
    reveal_strlit(" [possible linkout - elaboration needed]");
}

pub(crate) proof fn lemma_occurs(s: Seq<char>, pat: Seq<char>, i: int, k: int)
    requires
        occurs_at(s, pat, i),
        0 <= k < pat.len(),
    ensures
        s[i + k] == pat[k],
{
    assert(s.subrange(i, i + pat.len())[k] == pat[k]);
}

// ---------------------------------------------------------------- where things stand

/// Where replacement `n` starts in the new text.
spec fn at(gs: Seq<Seq<char>>, bs: Seq<Seq<char>>, n: nat) -> int {
    interleave(gs, bs, n).len() as int
}

/// What stands where in interleaved texts.
proof fn lemma_at(gs: Seq<Seq<char>>, bs: Seq<Seq<char>>, i: nat, n: nat)
    requires
        i < n <= bs.len(),
        n < gs.len(),
    ensures
        at(gs, bs, i) + bs[i as int].len() + gs[(i + 1) as int].len() <= at(gs, bs, n),
        interleave(gs, bs, n).subrange(at(gs, bs, i), at(gs, bs, i) + bs[i as int].len())
            == bs[i as int],
        interleave(gs, bs, n).take(at(gs, bs, i)) == interleave(gs, bs, i),
    decreases n,
{
    let k = (n - 1) as nat;
    let x = interleave(gs, bs, k);
    let t = interleave(gs, bs, n);
    if i < k {
        lemma_at(gs, bs, i, k);
        assert(t.subrange(at(gs, bs, i), at(gs, bs, i) + bs[i as int].len()) =~= x.subrange(
            at(gs, bs, i),
            at(gs, bs, i) + bs[i as int].len(),
        ));
        assert(t.take(at(gs, bs, i)) =~= x.take(at(gs, bs, i)));
    } else {
        assert(t.subrange(x.len() as int, (x.len() + bs[k as int].len()) as int) =~= bs[k as int]);
        assert(t.take(x.len() as int) =~= x);
    }
}

/// Whether the text of a match is kept.
spec fn kept(s: Seq<char>, ms: Seq<Match>, bs: Seq<Seq<char>>, i: int) -> bool {
    bs[i] == s.subrange(ms[i].start, ms[i].end)
}

/// Where gap `n` ends in the old text.
pub(crate) open spec fn gap_end(s: Seq<char>, ms: Seq<Match>, n: int) -> int {
    if n < ms.len() {
        ms[n].start
    } else {
        s.len() as int
    }
}

/// Behind the last match that is not kept, the new text ends as the old one does.
proof fn lemma_same_end(s: Seq<char>, ms: Seq<Match>, bs: Seq<Seq<char>>, i: nat, n: nat)
    requires
        spread(s, ms),
        bs.len() == ms.len(),
        i <= n <= ms.len(),
        forall|k: int| i <= k < n ==> #[trigger] kept(s, ms, bs, k),
    ensures
        ({
            let t = interleave(gaps(s, ms), bs, n);
            let from = gap_start(ms, i as int);
            let to = gap_end(s, ms, n as int);
            &&& 0 <= from <= to <= s.len()
            &&& t.len() >= to - from
            &&& t.skip(t.len() - (to - from)) == s.subrange(from, to)
            &&& t.len() - (to - from) == if i == 0 {
                0
            } else {
                at(gaps(s, ms), bs, (i - 1) as nat) + bs[i - 1].len()
            }
        }),
    decreases n,
{
    let gs = gaps(s, ms);
    let t = interleave(gs, bs, n);
    let from = gap_start(ms, i as int);
    let to = gap_end(s, ms, n as int);
    assert(gs[n as int] == gap(s, ms, n as int));
    if i == n {
        if n > 0 {
            let x = interleave(gs, bs, (n - 1) as nat) + bs[n - 1];
            assert(t == x + gs[n as int]);
            assert(t.skip(x.len() as int) =~= gs[n as int]);
        } else {
            assert(t.skip(0) =~= t);
        }
    } else {
        let k = (n - 1) as nat;
        lemma_same_end(s, ms, bs, i, k);
        let x = interleave(gs, bs, k);
        assert(kept(s, ms, bs, k as int));
        let mid = gap_end(s, ms, k as int);
        assert(gap_start(ms, k as int) <= mid <= s.len());
        let y = bs[k as int] + gs[n as int];
        assert(t =~= x + y);
        assert(y =~= s.subrange(mid, to));
        lemma_tail_step(x, y, s, from, mid, to);
    }
}

proof fn lemma_tail_step(
    x: Seq<char>,
    y: Seq<char>,
    s: Seq<char>,
    from: int,
    mid: int,
    to: int,
)
    requires
        0 <= from <= mid <= to <= s.len(),
        x.len() >= mid - from,
        x.skip(x.len() - (mid - from)) == s.subrange(from, mid),
        y == s.subrange(mid, to),
    ensures
        (x + y).len() >= to - from,
        (x + y).len() - (to - from) == x.len() - (mid - from),
        (x + y).skip((x + y).len() - (to - from)) == s.subrange(from, to),
{
    let cut = x.len() - (mid - from);
    assert((x + y).skip(cut) =~= x.skip(cut) + y);
    assert(s.subrange(from, mid) + s.subrange(mid, to) =~= s.subrange(from, to));
}

// ---------------------------------------------------------------- rewritten links

/// What a link that was restored looks like.
proof fn lemma_restored_link(s: Seq<char>, m: Match)
    requires
        placeholder_at(s, m),
        lost_target(pattern::groups_of(s, m)) is Some,
    ensures
        ({
            let r = relinked(pattern::groups_of(s, m));
            let n = group(pattern::groups_of(s, m), 1).len() as int;
            &&& 0 < n
            &&& n + 4 <= r.len()
            &&& r[n] == '['
            &&& r[n + 1] == '['
            &&& r[r.len() - 1] == ']'
            &&& forall|i: int| 0 <= i < n ==> (pattern::leading_char())(#[trigger] r[i])
            &&& forall|i: int| n <= i < r.len() ==> #[trigger] r[i] != '\n'
        }),
{
    let (a, b, f) = choice_of(s, m);
    let g = pattern::groups_of(s, m);
    reveal_strlit("[[");
    reveal_strlit("]]");
    reveal_strlit("#");
    lemma_marker();
    assert(g[1] == pattern::group_text(s, m.groups[1]));
    assert(g[2] == pattern::group_text(s, m.groups[2]));
    assert(g[3] == pattern::group_text(s, m.groups[3]));
    let lead = group(g, 1);
    let display = text::trim(group(g, 2));
    let t = lost_target(g).unwrap();
    assert forall|i: int| 0 <= i < lead.len() implies (pattern::leading_char())(
        #[trigger] lead[i],
    ) by {
        assert(lead[i] == s[m.start + i]);
    }
    lemma_trim_keeps(group(g, 2), '\n');
    lemma_trim_keeps(group(g, 3), '\n');
    assert forall|i: int| 0 <= i < group(g, 2).len() implies #[trigger] group(g, 2)[i] != '\n' by {
        assert(group(g, 2)[i] == s[a + i]);
    }
    assert forall|i: int| 0 <= i < group(g, 3).len() implies #[trigger] group(g, 3)[i] != '\n' by {
        assert(b < f);
        assert(group(g, 3)[i] == s[b + 3 + i]);
    }
    assert forall|i: int| 0 <= i < t.len() implies #[trigger] t[i] != '\n' by {
        if let Some(x) = said(g, 3) {
            if i < display.len() {
                assert(t[i] == display[i]);
            } else if i > display.len() {
                assert(t[i] == x[i - display.len() - 1]);
            }
        }
    }
    let r = relinked(g);
    let n = lead.len() as int;
    assert(r.len() == n + 2 + t.len() + 2);
    assert forall|i: int| 0 <= i < n implies (pattern::leading_char())(#[trigger] r[i]) by {
        assert(r[i] == lead[i]);
    }
    assert forall|i: int| n <= i < r.len() implies #[trigger] r[i] != '\n' by {
        if n + 2 <= i < n + 2 + t.len() {
            assert(r[i] == t[i - n - 2]);
        }
    }
}

/// Trimming brings no character in.
proof fn lemma_trim_keeps(s: Seq<char>, c: char)
    ensures
        (forall|i: int| 0 <= i < s.len() ==> #[trigger] s[i] != c) ==> (forall|i: int|
            0 <= i < text::trim(s).len() ==> #[trigger] text::trim(s)[i] != c),
{
    if forall|i: int| 0 <= i < s.len() ==> #[trigger] s[i] != c {
        lemma_trim_start_keeps(s, c);
        lemma_trim_end_keeps(text::trim_start(s), c);
    }
}

proof fn lemma_trim_start_keeps(s: Seq<char>, c: char)
    requires
        forall|i: int| 0 <= i < s.len() ==> #[trigger] s[i] != c,
    ensures
        forall|i: int|
            0 <= i < text::trim_start(s).len() ==> #[trigger] text::trim_start(s)[i] != c,
    decreases s.len(),
{
    if s.len() > 0 && text::white(s[0]) {
        assert forall|i: int| 0 <= i < s.skip(1).len() implies #[trigger] s.skip(1)[i] != c by {
            assert(s.skip(1)[i] == s[i + 1]);
        }
        lemma_trim_start_keeps(s.skip(1), c);
        assert(text::trim_start(s) == text::trim_start(s.skip(1)));
    } else {
        assert(text::trim_start(s) == s);
    }
}

proof fn lemma_trim_end_keeps(s: Seq<char>, c: char)
    requires
        forall|i: int| 0 <= i < s.len() ==> #[trigger] s[i] != c,
    ensures
        forall|i: int| 0 <= i < text::trim_end(s).len() ==> #[trigger] text::trim_end(s)[i] != c,
    decreases s.len(),
{
    if s.len() > 0 && text::white(s.last()) {
        lemma_trim_end_keeps(s.drop_last(), c);
        assert(text::trim_end(s) == text::trim_end(s.drop_last()));
    } else {
        assert(text::trim_end(s) == s);
    }
}

/// No lost link reaches into a link that was restored.
proof fn lemma_apart(
    t: Seq<char>,
    at: int,
    lead: int,
    len: int,
    m: Match,
    a: int,
    b: int,
    f: int,
)
    requires
        0 <= at,
        0 < lead,
        lead + 4 <= len,
        at + len <= t.len(),
        pattern::line_start(t, at),
        forall|i: int| at <= i < at + lead ==> (pattern::leading_char())(#[trigger] t[i]),
        t[at + lead] == '[',
        t[at + lead + 1] == '[',
        forall|i: int| at + lead <= i < at + len ==> #[trigger] t[i] != '\n',
        lost_parts(t, m, a, b, f),
    ensures
        m.end <= at || at + len <= m.start,
{
    lemma_marker();
    let x = at + lead;
    let p = m.start;
    if m.end > at && p < at + len {
        lemma_occurs(t, marker(), f, 39);
        lemma_occurs(t, marker(), f, 1);
        lemma_occurs(t, marker(), f, 2);
        assert((pattern::leading_char())(t[p]));
        if p >= x {
            // A line starts inside the link only where it starts with a bracket.
            if p > x {
                assert(t[p - 1] == '\n');
            }
            assert(false);
        }
        if m.end <= x {
            assert((pattern::leading_char())(t[m.end - 1]));
            assert(false);
        }
        assert(!(pattern::leading_char())(t[x]));
        assert(x >= a);
        if x < b {
            assert((pattern::display_char())(t[x]));
            assert(false);
        }
        if x >= f {
            lemma_occurs(t, marker(), f, x - f);
            assert(x == f + 1);
            assert(false);
        }
        lemma_occurs(t, seq![' ', '(', '§'], b, 0);
        lemma_occurs(t, seq![' ', '(', '§'], b, 1);
        lemma_occurs(t, seq![' ', '(', '§'], b, 2);
        assert(x >= b + 3);
        assert(!(pattern::leading_char())(t[b + 1]));
        assert(!(pattern::leading_char())(t[b + 2]));
        assert(at > b + 2);
        assert(t[at - 1] == '\n');
        assert(at - 1 >= b + 3);
        assert(at - 1 < f - 1);
        assert((pattern::lost_section_char())(t[at - 1]));
        assert(false);
    }
}

/// The same parts at another place of another text.
proof fn lemma_shifted(
    t: Seq<char>,
    s: Seq<char>,
    m: Match,
    a: int,
    b: int,
    f: int,
    d: int,
)
    requires
        lost_parts(t, m, a, b, f),
        0 <= m.start + d,
        m.end + d <= s.len(),
        t.subrange(m.start, m.end) == s.subrange(m.start + d, m.end + d),
        pattern::line_start(s, m.start + d),
    ensures
        lost_parts(s, lost_groups(m.start + d, a + d, b + d, f + d), a + d, b + d, f + d),
{
    assert(m.end <= t.len());
    assert forall|i: int| m.start <= i < m.end implies t[i] == #[trigger] s[i + d] by {
        assert(t.subrange(m.start, m.end)[i - m.start] == s.subrange(
            m.start + d,
            m.end + d,
        )[i - m.start]);
        assert(s.subrange(m.start + d, m.end + d)[i - m.start] == s[m.start + d + (i - m.start)]);
        assert(t.subrange(m.start, m.end)[i - m.start] == t[m.start + (i - m.start)]);
    }
    lemma_marker();
    let q = m.start + d;
    assert forall|j: int| q <= j < a + d implies (pattern::leading_char())(#[trigger] s[j]) by {
        assert(s[(j - d) + d] == t[j - d]);
    }
    assert forall|j: int| a + d <= j < b + d implies (pattern::display_char())(
        #[trigger] s[j],
    ) by {
        assert(s[(j - d) + d] == t[j - d]);
    }
    if b < f {
        assert forall|j: int| b + 3 + d <= j < f - 1 + d implies (pattern::lost_section_char())(
            #[trigger] s[j],
        ) by {
            assert(s[(j - d) + d] == t[j - d]);
        }
        assert(s.subrange(b + d, b + d + 3) =~= t.subrange(b, b + 3)) by {
            assert forall|k: int| 0 <= k < 3 implies #[trigger] s.subrange(b + d, b + d + 3)[k]
                == t.subrange(b, b + 3)[k] by {
                assert(s[(b + k) + d] == t[b + k]);
            }
        }
        assert(s[(f - 1) + d] == t[f - 1]);
    }
    assert(s.subrange(f + d, f + d + 40) =~= t.subrange(f, f + 40)) by {
        assert forall|k: int| 0 <= k < 40 implies #[trigger] s.subrange(f + d, f + d + 40)[k]
            == t.subrange(f, f + 40)[k] by {
            assert(s[(f + k) + d] == t[f + k]);
        }
    }
}

/// A lost link that starts inside a match shares its text with the match.
proof fn lemma_inside(
    s: Seq<char>,
    k: Match,
    ak: int,
    bk: int,
    fk: int,
    m: Match,
    a: int,
    b: int,
    f: int,
)
    requires
        lost_parts(s, k, ak, bk, fk),
        first_choice(s, k, ak, bk),
        lost_parts(s, m, a, b, f),
        m.start < ak ==> ak < a || (ak == a && b <= bk),
        k.start <= m.start < k.end,
        bk == ak + 1,
    ensures
        a == ak,
        b == bk,
{
    reveal(first_choice);
    lemma_marker();
    let q = m.start;
    // Behind the text of the match no line starts.
    if q > ak {
        assert(s[q - 1] == '\n');
        if q - 1 < bk {
            assert((pattern::display_char())(s[q - 1]));
        } else if q - 1 < fk {
            if q - 1 < bk + 3 {
                lemma_occurs(s, seq![' ', '(', '§'], bk, q - 1 - bk);
            } else if q - 1 < fk - 1 {
                assert((pattern::lost_section_char())(s[q - 1]));
            }
        } else {
            lemma_occurs(s, marker(), fk, q - 1 - fk);
        }
        assert(false);
    }
    let longer = lost_groups(k.start, a, b, f);
    assert forall|j: int| k.start <= j < a implies (pattern::leading_char())(#[trigger] s[j]) by {}
    assert(lost_parts(s, longer, a, b, f));
}

/// The text of a match whose target is blank is a single character.
proof fn lemma_blank(s: Seq<char>, m: Match, a: int, b: int, f: int)
    requires
        lost_parts(s, m, a, b, f),
        first_choice(s, m, a, b),
        text::trim(s.subrange(a, b)).len() == 0,
    ensures
        b == a + 1,
{
    reveal(first_choice);
    let d = s.subrange(a, b);
    lemma_all_white(d);
    if b > a + 1 {
        assert(text::white(d[0]));
        assert(d[0] == s[a]);
        let longer = lost_groups(m.start, a + 1, b, f);
        assert(lost_parts(s, longer, a + 1, b, f));
    }
}

proof fn lemma_all_white(d: Seq<char>)
    requires
        text::trim(d).len() == 0,
    ensures
        forall|i: int| 0 <= i < d.len() ==> text::white(#[trigger] d[i]),
    decreases d.len(),
{
    if d.len() > 0 {
        if text::white(d[0]) {
            lemma_all_white(d.skip(1));
            assert forall|i: int| 0 <= i < d.len() implies text::white(#[trigger] d[i]) by {
                if i > 0 {
                    assert(d[i] == d.skip(1)[i - 1]);
                }
            }
        } else {
            lemma_trim_end_first(d);
        }
    }
}

proof fn lemma_trim_end_first(d: Seq<char>)
    requires
        d.len() > 0,
        !text::white(d[0]),
    ensures
        text::trim_end(d).len() > 0,
    decreases d.len(),
{
    if text::white(d.last()) {
        lemma_trim_end_first(d.drop_last());
    }
}

// ---------------------------------------------------------------- nothing is left

/// Whether match `i` is re-emitted as it stands.
spec fn spared(w: Seq<char>, i: int) -> bool {
    lost_target(placeholders(w)[i]) is None
}

proof fn lemma_spared(w: Seq<char>, i: int)
    requires
        0 <= i < matches_of(Pattern::Placeholder, w).len(),
        spared(w, i),
    ensures
        kept(w, matches_of(Pattern::Placeholder, w), all_relinked(placeholders(w)), i),
{
    link_laws::lemma_group_zero(Pattern::Placeholder, w, i);
}

/// Where the replacement of match `i` stands in the new text.
spec fn new_start(w: Seq<char>, i: int) -> int {
    at(gaps(w, matches_of(Pattern::Placeholder, w)), all_relinked(placeholders(w)), i as nat)
}

/// Where the replacement of match `i` ends in the new text.
spec fn new_end(w: Seq<char>, i: int) -> int {
    new_start(w, i) + all_relinked(placeholders(w))[i].len()
}

/// Where the brackets of a restored link stand in the new text.
proof fn restored_at(w: Seq<char>, i: int) -> (lead: int)
    requires
        0 <= i < matches_of(Pattern::Placeholder, w).len(),
        !spared(w, i),
    ensures
        ({
            let t = relink_prose(w);
            let p = new_start(w, i);
            let e = new_end(w, i);
            &&& 0 <= p
            &&& 0 < lead
            &&& p + lead + 4 <= e <= t.len()
            &&& forall|k: int| p <= k < p + lead ==> (pattern::leading_char())(#[trigger] t[k])
            &&& t[p + lead] == '['
            &&& t[p + lead + 1] == '['
            &&& forall|k: int| p + lead <= k < e ==> #[trigger] t[k] != '\n'
            &&& t[e - 1] == ']'
        }),
{
    let ms = matches_of(Pattern::Placeholder, w);
    let gs = gaps(w, ms);
    let bs = all_relinked(placeholders(w));
    let t = relink_prose(w);
    let p = new_start(w, i);
    let r = bs[i];
    pattern::lemma_scan(Pattern::Placeholder, w, 0);
    assert(pattern::match_at(Pattern::Placeholder, w, ms[i]));
    assert(placeholders(w)[i] == pattern::groups_of(w, ms[i]));
    lemma_restored_link(w, ms[i]);
    lemma_at(gs, bs, i as nat, ms.len());
    let lead = group(pattern::groups_of(w, ms[i]), 1).len() as int;
    lemma_copied(t, p, r, lead);
    lead
}

/// What holds of the characters of a text holds of them inside another.
proof fn lemma_copied(t: Seq<char>, p: int, r: Seq<char>, lead: int)
    requires
        0 <= p,
        p + r.len() <= t.len(),
        t.subrange(p, p + r.len()) == r,
        0 < lead,
        lead + 4 <= r.len(),
        forall|k: int| 0 <= k < lead ==> (pattern::leading_char())(#[trigger] r[k]),
        forall|k: int| lead <= k < r.len() ==> #[trigger] r[k] != '\n',
    ensures
        forall|k: int| p <= k < p + lead ==> (pattern::leading_char())(#[trigger] t[k]),
        forall|k: int| p + lead <= k < p + r.len() ==> #[trigger] t[k] != '\n',
        t[p + lead] == r[lead],
        t[p + lead + 1] == r[lead + 1],
        t[p + r.len() - 1] == r[r.len() - 1],
{
    assert forall|k: int| 0 <= k < r.len() implies #[trigger] t[p + k] == r[k] by {
        assert(t.subrange(p, p + r.len())[k] == r[k]);
    }
    assert forall|k: int| p <= k < p + lead implies (pattern::leading_char())(#[trigger] t[k]) by {
        assert(t[p + (k - p)] == r[k - p]);
    }
    assert forall|k: int| p + lead <= k < p + r.len() implies #[trigger] t[k] != '\n' by {
        assert(t[p + (k - p)] == r[k - p]);
    }
    assert(t[p + lead] == r[lead]);
    assert(t[p + (lead + 1)] == r[lead + 1]);
    assert(t[p + (r.len() - 1)] == r[r.len() - 1]);
}

/// A restored link in the new text, and that no lost link reaches into it.
proof fn lemma_restored_apart(w: Seq<char>, i: int, m: Match, a: int, b: int, f: int)
    requires
        0 <= i < matches_of(Pattern::Placeholder, w).len(),
        !spared(w, i),
        lost_parts(relink_prose(w), m, a, b, f),
    ensures
        m.end <= new_start(w, i) || new_end(w, i) <= m.start,
        0 < new_end(w, i) <= relink_prose(w).len(),
        relink_prose(w)[new_end(w, i) - 1] == ']',
{
    let p = new_start(w, i);
    let lead = restored_at(w, i);
    lemma_line_kept(w, i);
    lemma_apart(relink_prose(w), p, lead, new_end(w, i) - p, m, a, b, f);
}

/// A replacement starts a line as its match does.
proof fn lemma_line_kept(w: Seq<char>, i: int)
    requires
        0 <= i < matches_of(Pattern::Placeholder, w).len(),
    ensures
        pattern::line_start(relink_prose(w), new_start(w, i)),
{
    let ms = matches_of(Pattern::Placeholder, w);
    let gs = gaps(w, ms);
    let bs = all_relinked(placeholders(w));
    let t = relink_prose(w);
    let p = new_start(w, i);
    pattern::lemma_scan(Pattern::Placeholder, w, 0);
    lemma_at(gs, bs, i as nat, ms.len());
    let x = interleave(gs, bs, i as nat);
    let st = ms[i].start;
    assert(pattern::match_at(Pattern::Placeholder, w, ms[i]));
    lemma_match_line(w, ms[i]);
    assert(gs[i] == gap(w, ms, i));
    if st == 0 {
        if i > 0 {
            assert(ms[i - 1].end <= ms[i].start);
        }
        assert(x.len() == 0);
    } else {
        if gs[i].len() == 0 {
            if i > 0 {
                assert(pattern::match_at(Pattern::Placeholder, w, ms[i - 1]));
                lemma_match_line(w, ms[i - 1]);
                assert(ms[i - 1].end == st);
            }
            assert(false);
        }
        assert(x[x.len() - 1] == gs[i][gs[i].len() - 1]);
        assert(gs[i][gs[i].len() - 1] == w[st - 1]);
        assert(t.take(p)[p - 1] == x[x.len() - 1]);
    }
}

proof fn lemma_match_line(w: Seq<char>, m: Match)
    requires
        placeholder_at(w, m),
    ensures
        pattern::line_start(w, m.start),
        0 <= m.start < m.end <= w.len(),
        w[m.end - 1] == ']',
{
    let (a, b, f) = choice_of(w, m);
    lemma_marker();
    lemma_occurs(w, marker(), f, 39);
}

/// The stretch of spared matches around a lost link of the new text.
proof fn find_stretch(
    w: Seq<char>,
    m: Match,
    a: int,
    b: int,
    f: int,
    i: nat,
    j: nat,
) -> (r: (nat, nat))
    requires
        lost_parts(relink_prose(w), m, a, b, f),
        i <= j <= matches_of(Pattern::Placeholder, w).len(),
        forall|k: int| i <= k < j ==> #[trigger] spared(w, k),
        i > 0 ==> !spared(w, i - 1) && new_end(w, i - 1) <= m.start,
    ensures
        r.0 <= r.1 <= matches_of(Pattern::Placeholder, w).len(),
        forall|k: int| r.0 <= k < r.1 ==> #[trigger] spared(w, k),
        r.0 > 0 ==> !spared(w, r.0 - 1) && new_end(w, r.0 - 1) <= m.start,
        r.1 < matches_of(Pattern::Placeholder, w).len() ==> m.end <= new_start(w, r.1 as int),
    decreases matches_of(Pattern::Placeholder, w).len() - j,
{
    let n = matches_of(Pattern::Placeholder, w).len();
    if j == n {
        (i, j)
    } else if spared(w, j as int) {
        find_stretch(w, m, a, b, f, i, j + 1)
    } else {
        lemma_restored_apart(w, j as int, m, a, b, f);
        if m.end <= new_start(w, j as int) {
            (i, j)
        } else {
            find_stretch(w, m, a, b, f, j + 1, j + 1)
        }
    }
}

/// Whether two texts agree on a stretch, one shifted against the other.
spec fn agree(t: Seq<char>, w: Seq<char>, from: int, to: int, d: int) -> bool {
    0 <= from <= to <= t.len() && 0 <= from + d && to + d <= w.len() && t.subrange(from, to)
        == w.subrange(from + d, to + d)
}

proof fn lemma_agree_part(
    t: Seq<char>,
    w: Seq<char>,
    from: int,
    to: int,
    d: int,
    u: int,
    v: int,
)
    requires
        agree(t, w, from, to, d),
        from <= u <= v <= to,
    ensures
        t.subrange(u, v) == w.subrange(u + d, v + d),
{
    assert(t.subrange(u, v) =~= t.subrange(from, to).subrange(u - from, v - from));
    assert(w.subrange(u + d, v + d) =~= w.subrange(from + d, to + d).subrange(u - from, v - from));
}

/// The stretch of the new text, between restored links, that holds a lost link, and
/// where it stood in the old text.
struct Stretch {
    first: nat,
    last: nat,
    from: int,
    to: int,
    d: int,
}

proof fn lemma_stretch(w: Seq<char>, m: Match, a: int, b: int, f: int) -> (r: Stretch)
    requires
        lost_parts(relink_prose(w), m, a, b, f),
    ensures
        r.first <= r.last <= matches_of(Pattern::Placeholder, w).len(),
        forall|k: int| r.first <= k < r.last ==> #[trigger] spared(w, k),
        r.from <= m.start,
        m.end <= r.to,
        agree(relink_prose(w), w, r.from, r.to, r.d),
        r.from + r.d == gap_start(matches_of(Pattern::Placeholder, w), r.first as int),
        r.to + r.d == gap_end(w, matches_of(Pattern::Placeholder, w), r.last as int),
        r.from > 0 ==> relink_prose(w)[r.from - 1] != '\n',
        r.from == 0 ==> r.d == 0,
{
    let ms = matches_of(Pattern::Placeholder, w);
    let n = ms.len();
    let gs = gaps(w, ms);
    let bs = all_relinked(placeholders(w));
    let t = relink_prose(w);
    pattern::lemma_scan(Pattern::Placeholder, w, 0);
    let (i, j) = find_stretch(w, m, a, b, f, 0, 0);
    assert forall|k: int| i <= k < j implies #[trigger] kept(w, ms, bs, k) by {
        assert(spared(w, k));
        lemma_spared(w, k);
    }
    lemma_same_end(w, ms, bs, i, j);
    let x = interleave(gs, bs, j);
    let from = gap_start(ms, i as int);
    let to = gap_end(w, ms, j as int);
    let base = x.len() - (to - from);
    if j < n {
        lemma_at(gs, bs, j, n);
    } else {
        assert(t.take(t.len() as int) =~= t);
        assert(m.end <= t.len());
    }
    assert(x == t.take(x.len() as int));
    assert(t.subrange(base, x.len() as int) =~= x.skip(base));
    if i > 0 {
        lemma_restored_apart(w, i - 1, m, a, b, f);
    }
    Stretch { first: i, last: j, from: base, to: x.len() as int, d: from - base }
}

/// A lost link of the old text that starts inside a spared match stands in the new
/// text too, so the choice made there went against it.
proof fn lemma_beside(
    w: Seq<char>,
    m: Match,
    a: int,
    b: int,
    f: int,
    r: Stretch,
    k: int,
    ak: int,
    bk: int,
    fk: int,
)
    requires
        lost_parts(relink_prose(w), m, a, b, f),
        first_choice(relink_prose(w), m, a, b),
        agree(relink_prose(w), w, r.from, r.to, r.d),
        r.from <= m.start,
        0 <= k < matches_of(Pattern::Placeholder, w).len(),
        matches_of(Pattern::Placeholder, w)[k].start <= m.start + r.d < ak,
        matches_of(Pattern::Placeholder, w)[k].end <= r.to + r.d,
        lost_parts(w, matches_of(Pattern::Placeholder, w)[k], ak, bk, fk),
        pattern::line_start(w, m.start + r.d),
    ensures
        ak < a + r.d || (ak == a + r.d && b + r.d <= bk),
{
    reveal(first_choice);
    let t = relink_prose(w);
    let mk = matches_of(Pattern::Placeholder, w)[k];
    let q = m.start + r.d;
    lemma_marker();
    let shorter = lost_groups(q, ak, bk, fk);
    assert(lost_parts(w, shorter, ak, bk, fk));
    lemma_agree_part(t, w, r.from, r.to, r.d, q - r.d, mk.end - r.d);
    assert(w.subrange(shorter.start, shorter.end) == t.subrange(
        shorter.start + -r.d,
        shorter.end + -r.d,
    ));
    lemma_shifted(w, t, shorter, ak, bk, fk, -r.d);
    assert(lost_parts(
        t,
        lost_groups(q + -r.d, ak + -r.d, bk + -r.d, fk + -r.d),
        ak + -r.d,
        bk + -r.d,
        fk + -r.d,
    ));
}

/// What a lost link of the new text was in the old one.
proof fn lemma_traced(w: Seq<char>, m: Match, a: int, b: int, f: int) -> (d: int)
    requires
        lost_parts(relink_prose(w), m, a, b, f),
        first_choice(relink_prose(w), m, a, b),
    ensures
        lost_parts(w, lost_groups(m.start + d, a + d, b + d, f + d), a + d, b + d, f + d),
        w.subrange(a + d, b + d) == relink_prose(w).subrange(a, b),
        forall|k: int|
            0 <= k < matches_of(Pattern::Placeholder, w).len() && (#[trigger] matches_of(
                Pattern::Placeholder,
                w,
            )[k]).start <= m.start + d < matches_of(Pattern::Placeholder, w)[k].end ==> spared(w, k)
                && same_line(w, k, m, a, b, d),
{
    let ms = matches_of(Pattern::Placeholder, w);
    let n = ms.len();
    let t = relink_prose(w);
    lemma_marker();
    pattern::lemma_scan(Pattern::Placeholder, w, 0);
    let r = lemma_stretch(w, m, a, b, f);
    let d = r.d;
    let q = m.start + d;
    assert(pattern::line_start(w, q)) by {
        if m.start > 0 {
            assert(m.start > r.from);
            lemma_agree_part(t, w, r.from, r.to, d, m.start - 1, m.start);
            assert(t.subrange(m.start - 1, m.start)[0] == w.subrange(q - 1, q)[0]);
        }
    }
    lemma_agree_part(t, w, r.from, r.to, d, m.start, m.end);
    lemma_shifted(t, w, m, a, b, f, d);
    lemma_agree_part(t, w, r.from, r.to, d, a, b);
    assert forall|k: int|
        0 <= k < n && (#[trigger] ms[k]).start <= q < ms[k].end implies spared(w, k) && same_line(
        w,
        k,
        m,
        a,
        b,
        d,
    ) by {
        let i = r.first as int;
        let j = r.last as int;
        if k < i {
            if k < i - 1 {
                assert(ms[k].end <= ms[i - 1].start);
            }
            assert(false);
        }
        if k >= j {
            if k > j {
                assert(ms[j].end <= ms[k].start);
            }
            assert(false);
        }
        assert(spared(w, k));
        if j < n {
            assert(ms[k].end <= ms[j].start);
        }
        assert forall|ak: int, bk: int, fk: int|
            #![trigger lost_parts(w, ms[k], ak, bk, fk)]
            lost_parts(w, ms[k], ak, bk, fk) && m.start + d < ak implies ak < a + d || (ak == a + d
            && b + d <= bk) by {
            lemma_beside(w, m, a, b, f, r, k, ak, bk, fk);
        }
    }
    d
}

/// That a lost link which starts inside a match is of first choice beside it.
spec fn same_line(w: Seq<char>, k: int, m: Match, a: int, b: int, d: int) -> bool {
    forall|ak: int, bk: int, fk: int|
        #![trigger lost_parts(w, matches_of(Pattern::Placeholder, w)[k], ak, bk, fk)]
        lost_parts(w, matches_of(Pattern::Placeholder, w)[k], ak, bk, fk) && m.start + d < ak ==> ak
            < a + d || (ak == a + d && b + d <= bk)
}

/// The match of the old text in which a lost link starts.
proof fn match_around(w: Seq<char>, q: int) -> (k: int)
    requires
        0 <= q < w.len(),
        starts_at(Pattern::Placeholder, w, q),
    ensures
        0 <= k < matches_of(Pattern::Placeholder, w).len(),
        matches_of(Pattern::Placeholder, w)[k].start <= q < matches_of(
            Pattern::Placeholder,
            w,
        )[k].end,
        placeholder_at(w, matches_of(Pattern::Placeholder, w)[k]),
{
    let ms = matches_of(Pattern::Placeholder, w);
    if forall|k: int| 0 <= k < ms.len() ==> !((#[trigger] ms[k]).start <= q < ms[k].end) {
        pattern::lemma_scan_complete(Pattern::Placeholder, w, 0, q);
    }
    let k = choose|k: int| 0 <= k < ms.len() && (#[trigger] ms[k]).start <= q < ms[k].end;
    pattern::lemma_scan(Pattern::Placeholder, w, 0);
    assert(pattern::match_at(Pattern::Placeholder, w, ms[k]));
    k
}

/// A lost link that starts inside a spared match has a blank text.
proof fn lemma_blank_inside(w: Seq<char>, k: int, m: Match, a: int, b: int, f: int, d: int)
    requires
        0 <= k < matches_of(Pattern::Placeholder, w).len(),
        matches_of(Pattern::Placeholder, w)[k].start <= m.start + d < matches_of(
            Pattern::Placeholder,
            w,
        )[k].end,
        placeholder_at(w, matches_of(Pattern::Placeholder, w)[k]),
        spared(w, k),
        same_line(w, k, m, a, b, d),
        lost_parts(w, lost_groups(m.start + d, a + d, b + d, f + d), a + d, b + d, f + d),
    ensures
        text::trim(w.subrange(a + d, b + d)).len() == 0,
{
    let mk = matches_of(Pattern::Placeholder, w)[k];
    let (ak, bk, fk) = choice_of(w, mk);
    let g = pattern::groups_of(w, mk);
    assert(placeholders(w)[k] == g);
    assert(g[2] == pattern::group_text(w, mk.groups[2]));
    assert(group(g, 2) == w.subrange(ak, bk));
    lemma_blank(w, mk, ak, bk, fk);
    let old_match = lost_groups(m.start + d, a + d, b + d, f + d);
    lemma_inside(w, mk, ak, bk, fk, old_match, a + d, b + d, f + d);
}

/// The lost links that remain after restoring have a blank text.
proof fn lemma_rest_is_blank(w: Seq<char>, m: Match)
    requires
        placeholder_at(relink_prose(w), m),
    ensures
        lost_target(pattern::groups_of(relink_prose(w), m)) is None,
{
    let t = relink_prose(w);
    let (a, b, f) = choice_of(t, m);
    let d = lemma_traced(w, m, a, b, f);
    let q = m.start + d;
    lemma_first_choice(w, lost_groups(q, a + d, b + d, f + d), a + d, b + d, f + d);
    lemma_marker();
    let k = match_around(w, q);
    lemma_blank_inside(w, k, m, a, b, f, d);
    let h = pattern::groups_of(t, m);
    assert(h[2] == pattern::group_text(t, m.groups[2]));
    assert(group(h, 2) == t.subrange(a, b));
}

proof fn lemma_targets_empty(w: Seq<char>, n: nat)
    requires
        n <= placeholders(relink_prose(w)).len(),
    ensures
        targets(placeholders(relink_prose(w)), n) == Seq::<Seq<char>>::empty(),
    decreases n,
{
    if n > 0 {
        let t = relink_prose(w);
        let ms = matches_of(Pattern::Placeholder, t);
        lemma_targets_empty(w, (n - 1) as nat);
        pattern::lemma_scan(Pattern::Placeholder, t, 0);
        assert(pattern::match_at(Pattern::Placeholder, t, ms[n - 1]));
        assert(placeholders(t)[n - 1] == pattern::groups_of(t, ms[n - 1]));
        lemma_rest_is_blank(w, ms[n - 1]);
    }
}

/// In prose, restoring links leaves no lost link to restore, and doing so again
/// changes nothing.
pub proof fn law_relink_prose_idempotent(w: Seq<char>)
    ensures
        targets(placeholders(relink_prose(w)), placeholders(relink_prose(w)).len()) == Seq::<
            Seq<char>,
        >::empty(),
        relink_prose(relink_prose(w)) == relink_prose(w),
{
    let t = relink_prose(w);
    let gs = placeholders(t);
    let ms = matches_of(Pattern::Placeholder, t);
    lemma_targets_empty(w, gs.len());
    code_stash::lemma_spliced_wholes(Pattern::Placeholder, t);
    assert forall|i: int| 0 <= i < ms.len() implies #[trigger] all_relinked(gs)[i] == wholes(
        t,
        ms,
    )[i] by {
        link_laws::lemma_no_targets(gs, gs.len(), i);
        link_laws::lemma_group_zero(Pattern::Placeholder, t, i);
    }
    assert(all_relinked(gs) =~= wholes(t, ms));
}

// ---------------------------------------------------------------- texts without code

/// Whether a character does not occur in a text.
pub open spec fn lacks(s: Seq<char>, c: char) -> bool {
    forall|i: int| 0 <= i < s.len() ==> #[trigger] s[i] != c
}

proof fn lemma_no_scan(p: Pattern, s: Seq<char>, from: int)
    requires
        p is Fenced || p is Inline,
        lacks(s, '`'),
        0 <= from,
    ensures
        pattern::scan(p, s, from).len() == 0,
    decreases s.len() - from,
{
    if from < s.len() {
        if starts_at(p, s, from) {
            let m = pattern::match_from(p, s, from);
            if p is Fenced {
                lemma_occurs(s, seq!['`', '`', '`'], m.start, 0);
            }
            assert(s[from] == '`');
        }
        lemma_no_scan(p, s, from + 1);
    }
}

/// A text without code is left whole when its code is put aside.
pub(crate) proof fn lemma_nothing_aside(name: Seq<char>, p: Pattern, s: Seq<char>, base: nat)
    requires
        p is Fenced || p is Inline,
        lacks(s, '`'),
    ensures
        code_stash::set_aside(name, p, s, base).text == s,
        code_stash::set_aside(name, p, s, base).blocks.len() == 0,
{
    lemma_no_scan(p, s, 0);
    let ms = matches_of(p, s);
    assert(gaps(s, ms)[0] == gap(s, ms, 0));
    assert(gap(s, ms, 0) =~= s);
}

} // verus!
