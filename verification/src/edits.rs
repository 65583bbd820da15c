//! Edits of a text that leave its code where it is.

use vstd::prelude::*;

use crate::code_stash::{
    interleave, is_mark, lemma_plain_tokened, lemma_token, lemma_tokened_cut, lemma_tokened_join,
    leads, outside, set_aside, token, tokened, tokens, wholes,
};
use crate::pattern;
use crate::pattern::{
    fence, fenced_at, gap, gaps, inline_at, match_at, match_from, matches_of, scan, starts_at, Match,
    Pattern,
};

verus! {

// ---------------------------------------------------------------- where code stands

/// A pattern that finds code.
pub open spec fn finds_code(p: Pattern) -> bool {
    p is Fenced || p is Inline
}

/// A match with no parts but the whole.
pub open spec fn bare(start: int, end: int) -> Match {
    Match { start, end, groups: seq![Some((start, end))] }
}

/// A match of the same length further on.
spec fn moved(m: Match, k: int) -> Match {
    bare(m.start + k, m.end + k)
}

spec fn all_moved(ms: Seq<Match>, k: int) -> Seq<Match> {
    Seq::new(ms.len(), |i: int| moved(ms[i], k))
}

proof fn lemma_fence_moved(s: Seq<char>, k: int, j: int)
    requires
        0 <= k <= s.len(),
        0 <= j,
    ensures
        fence(s.skip(k), j) == fence(s, j + k),
{
    if j + k + 3 <= s.len() {
        assert(s.skip(k).subrange(j, j + 3) =~= s.subrange(j + k, j + k + 3));
    }
}

/// Code is found in the rest of a text as it is found in the text.
proof fn lemma_match_moved(p: Pattern, s: Seq<char>, k: int, m: Match)
    requires
        finds_code(p),
        0 <= k <= s.len(),
        0 <= m.start,
        m.groups == seq![Some((m.start, m.end))],
    ensures
        match_at(p, s.skip(k), m) == match_at(p, s, moved(m, k)),
{
    let u = s.skip(k);
    let n = moved(m, k);
    if p is Fenced {
        lemma_fence_moved(s, k, m.start);
        if m.end >= 3 {
            lemma_fence_moved(s, k, m.end - 3);
        }
        if fenced_at(u, m) {
            assert forall|j: int| n.start + 3 <= j < n.end - 3 implies !#[trigger] fence(s, j) by {
                lemma_fence_moved(s, k, j - k);
            }
        }
        if fenced_at(s, n) {
            assert forall|j: int| m.start + 3 <= j < m.end - 3 implies !#[trigger] fence(u, j) by {
                lemma_fence_moved(s, k, j);
                assert(!fence(s, j + k));
            }
        }
    } else {
        if inline_at(u, m) {
            assert forall|j: int| n.start + 1 <= j < n.end - 1 implies (pattern::inline_char())(
                #[trigger] s[j],
            ) by {
                assert(u[j - k] == s[j]);
            }
        }
        if inline_at(s, n) {
            assert forall|j: int| m.start + 1 <= j < m.end - 1 implies (pattern::inline_char())(
                #[trigger] u[j],
            ) by {
                assert(u[j] == s[j + k]);
            }
        }
    }
}

/// There is one match of code at a place.
proof fn lemma_one_match(p: Pattern, s: Seq<char>, m: Match, n: Match)
    requires
        finds_code(p),
        match_at(p, s, m),
        match_at(p, s, n),
        m.start == n.start,
    ensures
        m == n,
        m == bare(m.start, m.end),
{
    if p is Fenced {
        if m.end < n.end {
            assert(!fence(s, m.end - 3));
        } else if n.end < m.end {
            assert(!fence(s, n.end - 3));
        }
    } else {
        if m.end < n.end {
            assert((pattern::inline_char())(s[m.end - 1]));
        } else if n.end < m.end {
            assert((pattern::inline_char())(s[n.end - 1]));
        }
    }
}

proof fn lemma_starts_moved(p: Pattern, s: Seq<char>, k: int, i: int)
    requires
        finds_code(p),
        0 <= k <= s.len(),
        0 <= i,
    ensures
        starts_at(p, s.skip(k), i) == starts_at(p, s, i + k),
        starts_at(p, s, i + k) ==> match_from(p, s, i + k) == moved(match_from(p, s.skip(k), i), k),
{
    let u = s.skip(k);
    if starts_at(p, u, i) {
        let m = match_from(p, u, i);
        lemma_match_moved(p, s, k, m);
        assert(match_at(p, s, moved(m, k)));
        lemma_one_match(p, s, moved(m, k), match_from(p, s, i + k));
    }
    if starts_at(p, s, i + k) {
        let n = match_from(p, s, i + k);
        lemma_match_moved(p, s, k, bare(n.start - k, n.end - k));
        assert(match_at(p, u, bare(n.start - k, n.end - k)));
    }
}

proof fn lemma_scan_moved(p: Pattern, s: Seq<char>, k: int, from: int)
    requires
        finds_code(p),
        0 <= k <= s.len(),
        0 <= from,
    ensures
        scan(p, s, from + k) == all_moved(scan(p, s.skip(k), from), k),
    decreases s.len() - from,
{
    let u = s.skip(k);
    if from < u.len() {
        lemma_starts_moved(p, s, k, from);
        if starts_at(p, u, from) {
            let m = match_from(p, u, from);
            pattern::lemma_match_bounds(p, u, m);
            lemma_scan_moved(p, s, k, m.end);
            assert(seq![moved(m, k)] + all_moved(scan(p, u, m.end), k) =~= all_moved(
                seq![m] + scan(p, u, m.end),
                k,
            ));
        } else {
            lemma_scan_moved(p, s, k, from + 1);
        }
    } else {
        assert(all_moved(scan(p, u, from), k) =~= Seq::empty());
    }
}

/// Interleaved texts whose first piece is longer by `lead`.
proof fn lemma_interleave_lead(
    gs: Seq<Seq<char>>,
    hs: Seq<Seq<char>>,
    bs: Seq<Seq<char>>,
    lead: Seq<char>,
    n: nat,
)
    requires
        n <= bs.len(),
        n < gs.len(),
        gs.len() == hs.len(),
        gs[0] == lead + hs[0],
        forall|i: int| 1 <= i < gs.len() ==> gs[i] == #[trigger] hs[i],
    ensures
        interleave(gs, bs, n) == lead + interleave(hs, bs, n),
    decreases n,
{
    if n > 0 {
        lemma_interleave_lead(gs, hs, bs, lead, (n - 1) as nat);
        let x = interleave(hs, bs, (n - 1) as nat);
        assert(gs[n as int] == hs[n as int]);
        assert((lead + x) + bs[n - 1] + hs[n as int] =~= lead + (x + bs[n - 1] + hs[n as int]));
    }
}

/// Interleaved texts by their front.
proof fn lemma_interleave_front(
    gs: Seq<Seq<char>>,
    bs: Seq<Seq<char>>,
    hs: Seq<Seq<char>>,
    cs: Seq<Seq<char>>,
    n: nat,
)
    requires
        n <= cs.len(),
        n < hs.len(),
        gs.len() == hs.len() + 1,
        bs.len() == cs.len() + 1,
        forall|i: int| 0 <= i < hs.len() ==> gs[i + 1] == #[trigger] hs[i],
        forall|i: int| 0 <= i < cs.len() ==> bs[i + 1] == #[trigger] cs[i],
    ensures
        interleave(gs, bs, n + 1) == gs[0] + bs[0] + interleave(hs, cs, n),
    decreases n,
{
    assert(gs[n as int + 1] == hs[n as int]);
    if n > 0 {
        lemma_interleave_front(gs, bs, hs, cs, (n - 1) as nat);
        let x = interleave(hs, cs, (n - 1) as nat);
        assert(bs[(n - 1) + 1] == cs[n - 1]);
        assert((gs[0] + bs[0] + x) + cs[n - 1] + hs[n as int] =~= gs[0] + bs[0] + (x + cs[n - 1]
            + hs[n as int]));
    } else {
        assert(interleave(gs, bs, 0) == gs[0]);
    }
}

/// A character that starts no code stays in front.
pub proof fn lemma_aside_char(name: Seq<char>, p: Pattern, s: Seq<char>, base: nat)
    requires
        finds_code(p),
        s.len() > 0,
        !starts_at(p, s, 0),
    ensures
        set_aside(name, p, s, base).text == seq![s[0]] + set_aside(name, p, s.skip(1), base).text,
        set_aside(name, p, s, base).blocks == set_aside(name, p, s.skip(1), base).blocks,
{
    let u = s.skip(1);
    let ms = matches_of(p, s);
    let ns = matches_of(p, u);
    lemma_scan_moved(p, s, 1, 0);
    assert(ms == all_moved(ns, 1));
    pattern::lemma_scan(p, u, 0);
    let gs = gaps(s, ms);
    let hs = gaps(u, ns);
    assert(gs[0] =~= seq![s[0]] + hs[0]);
    assert forall|i: int| 1 <= i < gs.len() implies gs[i] == #[trigger] hs[i] by {
        if i < ns.len() {
            assert(ns[i - 1].end <= ns[i].start);
        }
        assert(ms[i - 1] == moved(ns[i - 1], 1));
        assert(gap(s, ms, i) =~= gap(u, ns, i));
    }
    lemma_interleave_lead(gs, hs, tokens(name, base as int, ms.len()), seq![s[0]], ms.len());
    assert forall|i: int| 0 <= i < ms.len() implies #[trigger] wholes(s, ms)[i] == wholes(
        u,
        ns,
    )[i] by {
        assert(s.subrange(ms[i].start, ms[i].end) =~= u.subrange(ns[i].start, ns[i].end));
    }
    assert(wholes(s, ms) =~= wholes(u, ns));
}

/// Code in front is put aside.
pub proof fn lemma_aside_code(name: Seq<char>, p: Pattern, s: Seq<char>, base: nat, n: int)
    requires
        finds_code(p),
        match_at(p, s, bare(0, n)),
    ensures
        0 < n <= s.len(),
        set_aside(name, p, s, base).text == token(name, base as int) + set_aside(
            name,
            p,
            s.skip(n),
            base + 1,
        ).text,
        set_aside(name, p, s, base).blocks == seq![s.take(n)] + set_aside(
            name,
            p,
            s.skip(n),
            base + 1,
        ).blocks,
{
    let m = bare(0, n);
    pattern::lemma_match_bounds(p, s, m);
    assert(starts_at(p, s, 0));
    lemma_one_match(p, s, m, match_from(p, s, 0));
    let u = s.skip(n);
    let ms = matches_of(p, s);
    let ns = matches_of(p, u);
    lemma_scan_moved(p, s, n, 0);
    assert(ms == seq![m] + all_moved(ns, n));
    pattern::lemma_scan(p, u, 0);
    let gs = gaps(s, ms);
    let hs = gaps(u, ns);
    let ts = tokens(name, base as int, ms.len());
    let us = tokens(name, (base + 1) as int, ns.len());
    assert(gs[0].len() == 0);
    assert forall|i: int| 0 <= i < ns.len() implies #[trigger] ms[i + 1] == moved(ns[i], n) by {}
    assert forall|i: int| 0 <= i < hs.len() implies gs[i + 1] == #[trigger] hs[i] by {
        if 0 < i {
            assert(ms[(i - 1) + 1] == moved(ns[i - 1], n));
            if i < ns.len() {
                assert(ns[i - 1].end <= ns[i].start);
            }
        }
        if i < ns.len() {
            assert(ms[i + 1] == moved(ns[i], n));
        }
        assert(gap(s, ms, i + 1) =~= gap(u, ns, i));
    }
    lemma_interleave_front(gs, ts, hs, us, ns.len());
    assert(gs[0] + ts[0] =~= token(name, base as int));
    assert forall|i: int| 0 <= i < ms.len() implies #[trigger] wholes(s, ms)[i] == (seq![s.take(n)]
        + wholes(u, ns))[i] by {
        if i == 0 {
            assert(s.subrange(0, n) =~= s.take(n));
        } else {
            assert(ms[(i - 1) + 1] == moved(ns[i - 1], n));
            assert(s.subrange(ms[i].start, ms[i].end) =~= u.subrange(
                ns[i - 1].start,
                ns[i - 1].end,
            ));
        }
    }
    assert(wholes(s, ms) =~= seq![s.take(n)] + wholes(u, ns));
}

// ---------------------------------------------------------------- edits

/// One step through a text and what it becomes.
pub enum Edit {
    /// A character that stays, as a text.
    Char(Seq<char>),
    /// Code that stays.
    Code(Seq<char>),
    /// Plain text that gives way to plain text.
    Swap { from: Seq<char>, to: Seq<char> },
    /// A character that stays, as a text, and plain text behind it that gives way to
    /// plain text.
    Behind { c: Seq<char>, from: Seq<char>, to: Seq<char> },
}

/// Whether a character stands in no token, ends no line and belongs to no fence.
pub open spec fn plain(c: char) -> bool {
    outside(c) && c != '`' && c != '\n'
}

pub open spec fn all_plain(s: Seq<char>) -> bool {
    forall|i: int| 0 <= i < s.len() ==> plain(#[trigger] s[i])
}

/// Whether an edit leaves code where it is: only plain text changes, and between two
/// other characters none of it comes or goes altogether.
pub open spec fn allowed(d: Edit) -> bool {
    match d {
        Edit::Char(c) => c.len() == 1,
        Edit::Code(b) => b.len() > 0,
        Edit::Swap { from, to } => from.len() > 0 && to.len() > 0 && all_plain(from) && all_plain(
            to,
        ),
        Edit::Behind { c, from, to } => c.len() == 1 && outside(c[0]) && c[0] != '`' && all_plain(from)
            && all_plain(to),
    }
}

pub open spec fn all_allowed(e: Seq<Edit>) -> bool {
    forall|i: int| 0 <= i < e.len() ==> allowed(#[trigger] e[i])
}

/// The text of an edit: the one it yields, or the one it starts from.
pub open spec fn piece(d: Edit, new: bool) -> Seq<char> {
    match d {
        Edit::Char(c) => c,
        Edit::Code(b) => b,
        Edit::Swap { from, to } => if new {
            to
        } else {
            from
        },
        Edit::Behind { c, from, to } => c + if new {
            to
        } else {
            from
        },
    }
}

/// The text that edits yield, or the one they start from.
pub open spec fn whole(e: Seq<Edit>, new: bool) -> Seq<char>
    decreases e.len(),
{
    if e.len() == 0 {
        Seq::empty()
    } else {
        piece(e[0], new) + whole(e.skip(1), new)
    }
}

/// The same with a token for each piece of code.
pub open spec fn marked(name: Seq<char>, e: Seq<Edit>, new: bool, base: nat) -> Seq<char>
    decreases e.len(),
{
    if e.len() == 0 {
        Seq::empty()
    } else if e[0] is Code {
        token(name, base as int) + marked(name, e.skip(1), new, base + 1)
    } else {
        piece(e[0], new) + marked(name, e.skip(1), new, base)
    }
}

/// The code that edits keep.
pub open spec fn codes(e: Seq<Edit>) -> Seq<Seq<char>>
    decreases e.len(),
{
    if e.len() == 0 {
        Seq::empty()
    } else {
        match e[0] {
            Edit::Code(b) => seq![b] + codes(e.skip(1)),
            _ => codes(e.skip(1)),
        }
    }
}

/// Whether edits take for code what the pattern finds, and nothing else.
pub open spec fn settled(p: Pattern, e: Seq<Edit>, new: bool) -> bool
    decreases e.len(),
{
    e.len() == 0 || (settled(p, e.skip(1), new) && match e[0] {
        Edit::Char(_) => !starts_at(p, whole(e, new), 0),
        Edit::Code(b) => match_at(p, b, bare(0, b.len() as int)),
        _ => true,
    })
}

/// Whether no code is told apart in edits.
pub open spec fn codeless(e: Seq<Edit>) -> bool {
    forall|i: int| 0 <= i < e.len() ==> !(#[trigger] e[i] is Code)
}

// ---------------------------------------------------------------- code that stays

proof fn lemma_prefix_match(p: Pattern, b: Seq<char>, r: Seq<char>)
    requires
        finds_code(p),
        match_at(p, b, bare(0, b.len() as int)),
    ensures
        match_at(p, b + r, bare(0, b.len() as int)),
{
    let s = b + r;
    let n = b.len() as int;
    if p is Fenced {
        assert forall|j: int| 0 <= j <= n - 3 implies fence(s, j) == #[trigger] fence(b, j) by {
            assert(s.subrange(j, j + 3) =~= b.subrange(j, j + 3));
        }
        assert(fence(b, 0));
        assert(fence(b, n - 3));
        assert forall|j: int| 3 <= j < n - 3 implies !#[trigger] fence(s, j) by {
            assert(!fence(b, j));
        }
    } else {
        assert forall|j: int| 1 <= j < n - 1 implies (pattern::inline_char())(#[trigger] s[j]) by {
            assert((pattern::inline_char())(b[j]));
        }
    }
}

/// Code starts with a backtick.
proof fn lemma_starts_tick(p: Pattern, s: Seq<char>)
    requires
        finds_code(p),
        s.len() > 0,
        s[0] != '`',
    ensures
        !starts_at(p, s, 0),
{
    if starts_at(p, s, 0) {
        let m = match_from(p, s, 0);
        if p is Fenced {
            assert(s.subrange(0, 3)[0] == '`');
        }
    }
}

/// Text without backticks stays in front.
proof fn lemma_aside_plain(
    name: Seq<char>,
    p: Pattern,
    h: Seq<char>,
    r: Seq<char>,
    base: nat,
)
    requires
        finds_code(p),
        forall|i: int| 0 <= i < h.len() ==> #[trigger] h[i] != '`',
    ensures
        set_aside(name, p, h + r, base).text == h + set_aside(name, p, r, base).text,
        set_aside(name, p, h + r, base).blocks == set_aside(name, p, r, base).blocks,
    decreases h.len(),
{
    if h.len() == 0 {
        assert(h + r =~= r);
        assert(h + set_aside(name, p, r, base).text =~= set_aside(name, p, r, base).text);
    } else {
        let s = h + r;
        let k = h.skip(1);
        assert forall|i: int| 0 <= i < k.len() implies #[trigger] k[i] != '`' by {
            assert(k[i] == h[i + 1]);
        }
        assert(s[0] == h[0]);
        lemma_starts_tick(p, s);
        lemma_aside_char(name, p, s, base);
        assert(s.skip(1) =~= k + r);
        lemma_aside_plain(name, p, k, r, base);
        let x = set_aside(name, p, r, base).text;
        assert(seq![h[0]] + (k + x) =~= h + x);
    }
}

proof fn lemma_nothing(name: Seq<char>, p: Pattern, base: nat)
    ensures
        set_aside(name, p, Seq::empty(), base).text == Seq::<char>::empty(),
        set_aside(name, p, Seq::empty(), base).blocks == Seq::<Seq<char>>::empty(),
{
    let s = Seq::<char>::empty();
    let ms = matches_of(p, s);
    assert(ms.len() == 0);
    assert(gaps(s, ms)[0] == gap(s, ms, 0));
    assert(gap(s, ms, 0) =~= s);
    assert(wholes(s, ms) =~= Seq::empty());
}

/// Where edits tell code apart as the pattern does, putting it aside yields their
/// marked text.
pub proof fn lemma_settled(name: Seq<char>, p: Pattern, e: Seq<Edit>, new: bool, base: nat)
    requires
        finds_code(p),
        all_allowed(e),
        settled(p, e, new),
    ensures
        set_aside(name, p, whole(e, new), base).text == marked(name, e, new, base),
        set_aside(name, p, whole(e, new), base).blocks == codes(e),
    decreases e.len(),
{
    if e.len() == 0 {
        lemma_nothing(name, p, base);
    } else {
        let s = whole(e, new);
        let r = e.skip(1);
        let u = whole(r, new);
        assert(allowed(e[0]));
        assert forall|i: int| 0 <= i < r.len() implies allowed(#[trigger] r[i]) by {
            assert(r[i] == e[i + 1]);
        }
        match e[0] {
            Edit::Char(c) => {
                lemma_settled(name, p, r, new, base);
                lemma_aside_char(name, p, s, base);
                assert(s.skip(1) =~= u);
                assert(seq![s[0]] =~= c);
            },
            Edit::Code(b) => {
                lemma_settled(name, p, r, new, base + 1);
                lemma_prefix_match(p, b, u);
                lemma_aside_code(name, p, s, base, b.len() as int);
                assert(s.skip(b.len() as int) =~= u);
                assert(s.take(b.len() as int) =~= b);
            },
            _ => {
                lemma_settled(name, p, r, new, base);
                lemma_aside_plain(name, p, piece(e[0], new), u, base);
            },
        }
    }
}

// ---------------------------------------------------------------- what code depends on

/// Whether a line has a backtick.
spec fn tick_ahead(s: Seq<char>) -> bool
    decreases s.len(),
{
    s.len() > 0 && (s[0] == '`' || (s[0] != '\n' && tick_ahead(s.skip(1))))
}

/// How many backticks a text starts with.
spec fn ticks(s: Seq<char>) -> nat
    decreases s.len(),
{
    if s.len() > 0 && s[0] == '`' {
        1 + ticks(s.skip(1))
    } else {
        0
    }
}

/// Whether a fence stands anywhere.
spec fn fence_ahead(s: Seq<char>) -> bool
    decreases s.len(),
{
    s.len() > 0 && (ticks(s) >= 3 || fence_ahead(s.skip(1)))
}

/// Whether a text starts with `n` backticks and a fence stands anywhere behind them.
spec fn fence_behind(s: Seq<char>, n: nat) -> bool
    decreases n,
{
    if n == 0 {
        fence_ahead(s)
    } else {
        s.len() > 0 && s[0] == '`' && fence_behind(s.skip(1), (n - 1) as nat)
    }
}

/// Whether a text starts with a character other than a backtick, on the same line.
spec fn goes_on(s: Seq<char>) -> bool {
    s.len() > 0 && s[0] != '`' && s[0] != '\n'
}

/// Whether two texts are the same in all that code before them depends on.
spec fn alike(a: Seq<char>, b: Seq<char>) -> bool {
    &&& goes_on(a) == goes_on(b)
    &&& tick_ahead(a) == tick_ahead(b)
    &&& ticks(a) == ticks(b)
    &&& fence_ahead(a) == fence_ahead(b)
    &&& fence_behind(a, 1) == fence_behind(b, 1)
    &&& fence_behind(a, 2) == fence_behind(b, 2)
}

proof fn lemma_ticks(s: Seq<char>)
    ensures
        fence(s, 0) == (ticks(s) >= 3),
{
    reveal_with_fuel(ticks, 4);
    let f = seq!['`', '`', '`'];
    if s.len() >= 3 {
        assert(s.skip(1)[0] == s[1]);
        assert(s.skip(1).skip(1)[0] == s[2]);
        assert(s.subrange(0, 3)[0] == s[0]);
        assert(s.subrange(0, 3)[1] == s[1]);
        assert(s.subrange(0, 3)[2] == s[2]);
        if ticks(s) >= 3 {
            assert(s.subrange(0, 3) =~= f);
        }
        if fence(s, 0) {
            assert(f[0] == '`' && f[1] == '`' && f[2] == '`');
            assert(s[0] == '`' && s[1] == '`' && s[2] == '`');
        }
    }
}

/// The first fence from `from` on.
proof fn first_fence(s: Seq<char>, from: int) -> (j: int)
    requires
        0 <= from <= s.len(),
        fence_ahead(s.skip(from)),
    ensures
        from <= j,
        fence(s, j),
        forall|i: int| from <= i < j ==> !#[trigger] fence(s, i),
    decreases s.len() - from,
{
    let u = s.skip(from);
    lemma_ticks(u);
    lemma_fence_moved(s, from, 0);
    if fence(s, from) {
        from
    } else {
        assert(u.skip(1) =~= s.skip(from + 1));
        first_fence(s, from + 1)
    }
}

proof fn lemma_fence_ahead(s: Seq<char>, from: int, j: int)
    requires
        0 <= from <= j,
        fence(s, j),
    ensures
        fence_ahead(s.skip(from)),
    decreases j - from,
{
    let u = s.skip(from);
    lemma_ticks(u);
    lemma_fence_moved(s, from, 0);
    if from < j {
        lemma_fence_ahead(s, from + 1, j);
        assert(u.skip(1) =~= s.skip(from + 1));
    }
}

/// Where a fenced block starts.
proof fn lemma_starts_fenced(s: Seq<char>)
    ensures
        starts_at(Pattern::Fenced, s, 0) == fence_behind(s, 3),
{
    reveal_with_fuel(fence_behind, 4);
    lemma_ticks(s);
    reveal_with_fuel(ticks, 4);
    let u = s.skip(1).skip(1).skip(1);
    if s.len() >= 3 {
        assert(u =~= s.skip(3));
    }
    if fence_behind(s, 3) {
        assert(s.skip(1).skip(1).len() > 0);
        assert(ticks(s) >= 3);
        let j = first_fence(s, 3);
        assert(match_at(Pattern::Fenced, s, bare(0, j + 3)));
    }
    if starts_at(Pattern::Fenced, s, 0) {
        let m = match_from(Pattern::Fenced, s, 0);
        lemma_fence_ahead(s, 3, m.end - 3);
        assert(ticks(s) >= 3);
    }
}

/// The first backtick from `from` on, on the same line.
proof fn first_tick(s: Seq<char>, from: int) -> (j: int)
    requires
        0 <= from <= s.len(),
        tick_ahead(s.skip(from)),
    ensures
        from <= j < s.len(),
        s[j] == '`',
        forall|i: int| from <= i < j ==> (pattern::inline_char())(#[trigger] s[i]),
    decreases s.len() - from,
{
    let u = s.skip(from);
    assert(u.len() > 0);
    assert(u[0] == s[from]);
    if s[from] == '`' {
        from
    } else {
        assert(u.skip(1) =~= s.skip(from + 1));
        first_tick(s, from + 1)
    }
}

proof fn lemma_tick_ahead(s: Seq<char>, from: int, j: int)
    requires
        0 <= from <= j < s.len(),
        s[j] == '`',
        forall|i: int| from <= i < j ==> (pattern::inline_char())(#[trigger] s[i]),
    ensures
        tick_ahead(s.skip(from)),
    decreases j - from,
{
    let u = s.skip(from);
    assert(u[0] == s[from]);
    if from < j {
        assert((pattern::inline_char())(s[from]));
        lemma_tick_ahead(s, from + 1, j);
        assert(u.skip(1) =~= s.skip(from + 1));
    }
}

/// Where an inline code span starts.
proof fn lemma_starts_inline(s: Seq<char>)
    ensures
        starts_at(Pattern::Inline, s, 0) == (s.len() > 0 && s[0] == '`' && goes_on(s.skip(1))
            && tick_ahead(s.skip(1))),
{
    if s.len() > 0 && s[0] == '`' && goes_on(s.skip(1)) && tick_ahead(s.skip(1)) {
        assert(s.skip(1)[0] == s[1]);
        let j = first_tick(s, 1);
        assert(match_at(Pattern::Inline, s, bare(0, j + 1)));
    }
    if starts_at(Pattern::Inline, s, 0) {
        let m = match_from(Pattern::Inline, s, 0);
        assert((pattern::inline_char())(s[1]));
        assert(s.skip(1)[0] == s[1]);
        lemma_tick_ahead(s, 1, m.end - 1);
    }
}

/// A character before texts that are alike: they stay alike, and code starts in both
/// or in neither.
proof fn lemma_alike_char(c: char, a: Seq<char>, b: Seq<char>)
    requires
        alike(a, b),
    ensures
        alike(seq![c] + a, seq![c] + b),
        starts_at(Pattern::Fenced, seq![c] + a, 0) == starts_at(Pattern::Fenced, seq![c] + b, 0),
        starts_at(Pattern::Inline, seq![c] + a, 0) == starts_at(Pattern::Inline, seq![c] + b, 0),
{
    let x = seq![c] + a;
    let y = seq![c] + b;
    assert(x.skip(1) =~= a);
    assert(y.skip(1) =~= b);
    lemma_starts_fenced(x);
    lemma_starts_fenced(y);
    lemma_starts_inline(x);
    lemma_starts_inline(y);
    assert(fence_behind(x, 0) == fence_ahead(x));
    assert(fence_behind(a, 0) == fence_ahead(a));
    assert(fence_behind(b, 0) == fence_ahead(b));
    assert(fence_behind(x, 1) == (c == '`' && fence_behind(a, 0)));
    assert(fence_behind(y, 1) == (c == '`' && fence_behind(b, 0)));
    assert(fence_behind(x, 2) == (c == '`' && fence_behind(a, 1)));
    assert(fence_behind(y, 2) == (c == '`' && fence_behind(b, 1)));
    assert(fence_behind(x, 3) == (c == '`' && fence_behind(a, 2)));
    assert(fence_behind(y, 3) == (c == '`' && fence_behind(b, 2)));
}

proof fn lemma_alike_prefix(h: Seq<char>, a: Seq<char>, b: Seq<char>)
    requires
        alike(a, b),
    ensures
        alike(h + a, h + b),
    decreases h.len(),
{
    if h.len() == 0 {
        assert(h + a =~= a);
        assert(h + b =~= b);
    } else {
        let k = h.skip(1);
        lemma_alike_prefix(k, a, b);
        lemma_alike_char(h[0], k + a, k + b);
        assert(seq![h[0]] + (k + a) =~= h + a);
        assert(seq![h[0]] + (k + b) =~= h + b);
    }
}

/// What plain text before a text leaves as it is.
proof fn lemma_plain_before(h: Seq<char>, a: Seq<char>)
    requires
        all_plain(h),
    ensures
        tick_ahead(h + a) == tick_ahead(a),
        fence_ahead(h + a) == fence_ahead(a),
        h.len() > 0 ==> goes_on(h + a) && ticks(h + a) == 0 && !fence_behind(h + a, 1)
            && !fence_behind(h + a, 2),
    decreases h.len(),
{
    if h.len() == 0 {
        assert(h + a =~= a);
    } else {
        let k = h.skip(1);
        assert(plain(h[0]));
        assert forall|i: int| 0 <= i < k.len() implies plain(#[trigger] k[i]) by {
            assert(k[i] == h[i + 1]);
        }
        lemma_plain_before(k, a);
        assert((h + a).skip(1) =~= k + a);
        assert((h + a)[0] == h[0]);
    }
}

/// Texts that edits turn into one another are alike.
proof fn lemma_edits_alike(e: Seq<Edit>)
    requires
        all_allowed(e),
    ensures
        alike(whole(e, false), whole(e, true)),
    decreases e.len(),
{
    if e.len() > 0 {
        let r = e.skip(1);
        let a = whole(r, false);
        let b = whole(r, true);
        assert(allowed(e[0]));
        assert forall|i: int| 0 <= i < r.len() implies allowed(#[trigger] r[i]) by {
            assert(r[i] == e[i + 1]);
        }
        lemma_edits_alike(r);
        match e[0] {
            Edit::Char(c) => {
                lemma_alike_char(c[0], a, b);
                assert(seq![c[0]] =~= c);
            },
            Edit::Code(h) => {
                lemma_alike_prefix(h, a, b);
            },
            Edit::Swap { from, to } => {
                lemma_plain_before(from, a);
                lemma_plain_before(to, b);
            },
            Edit::Behind { c, from, to } => {
                lemma_plain_before(from, a);
                lemma_plain_before(to, b);
                let x = c + from + a;
                let y = c + to + b;
                assert(x.skip(1) =~= from + a);
                assert(y.skip(1) =~= to + b);
                assert(x[0] == c[0] && y[0] == c[0]);
            },
        }
    }
}

/// Edits that take for code what the pattern finds in the old text do so in the new
/// one.
pub proof fn lemma_settled_after(p: Pattern, e: Seq<Edit>)
    requires
        finds_code(p),
        all_allowed(e),
        settled(p, e, false),
    ensures
        settled(p, e, true),
    decreases e.len(),
{
    if e.len() > 0 {
        let r = e.skip(1);
        assert forall|i: int| 0 <= i < r.len() implies allowed(#[trigger] r[i]) by {
            assert(r[i] == e[i + 1]);
        }
        lemma_settled_after(p, r);
        lemma_edits_alike(r);
        if let Edit::Char(c) = e[0] {
            assert(allowed(e[0]));
            lemma_alike_char(c[0], whole(r, false), whole(r, true));
            assert(seq![c[0]] =~= c);
        }
    }
}

// ---------------------------------------------------------------- edits behind tokens

/// Edits that keep a text.
pub open spec fn keeping(s: Seq<char>) -> Seq<Edit> {
    Seq::new(s.len(), |i: int| Edit::Char(seq![s[i]]))
}

pub proof fn lemma_keeping(s: Seq<char>, new: bool)
    ensures
        all_allowed(keeping(s)),
        codeless(keeping(s)),
        whole(keeping(s), new) == s,
    decreases s.len(),
{
    if s.len() > 0 {
        lemma_keeping(s.skip(1), new);
        assert(keeping(s).skip(1) =~= keeping(s.skip(1)));
        assert(seq![s[0]] + s.skip(1) =~= s);
    }
}

pub proof fn lemma_whole_add(a: Seq<Edit>, b: Seq<Edit>, new: bool)
    ensures
        whole(a + b, new) == whole(a, new) + whole(b, new),
    decreases a.len(),
{
    if a.len() == 0 {
        assert(a + b =~= b);
        assert(whole(a, new) + whole(b, new) =~= whole(b, new));
    } else {
        lemma_whole_add(a.skip(1), b, new);
        assert((a + b).skip(1) =~= a.skip(1) + b);
        assert(piece(a[0], new) + (whole(a.skip(1), new) + whole(b, new)) =~= (piece(a[0], new)
            + whole(a.skip(1), new)) + whole(b, new));
    }
}

pub proof fn lemma_whole_one(d: Edit, new: bool)
    ensures
        whole(seq![d], new) == piece(d, new),
{
    reveal_with_fuel(whole, 2);
    assert(piece(d, new) + Seq::<char>::empty() =~= piece(d, new));
}

/// Characters of tokens are kept by edits.
proof fn lemma_token_kept(e: Seq<Edit>, t: Seq<char>, r: Seq<char>)
    requires
        all_allowed(e),
        codeless(e),
        whole(e, false) == t + r,
        forall|i: int| 0 <= i < t.len() ==> !outside(#[trigger] t[i]),
    ensures
        t.len() <= e.len(),
        whole(e.skip(t.len() as int), false) == r,
        whole(e, true) == t + whole(e.skip(t.len() as int), true),
    decreases t.len(),
{
    if t.len() == 0 {
        assert(t + r =~= r);
        assert(e.skip(0) =~= e);
        assert(t + whole(e, true) =~= whole(e, true));
    } else {
        assert((t + r).len() > 0);
        assert(e.len() > 0);
        assert(allowed(e[0]));
        assert(!(e[0] is Code));
        let w = e.skip(1);
        let k = t.skip(1);
        assert forall|i: int| 0 <= i < w.len() implies allowed(#[trigger] w[i]) && !(w[i] is Code) by {
            assert(w[i] == e[i + 1]);
        }
        assert forall|i: int| 0 <= i < k.len() implies !outside(#[trigger] k[i]) by {
            assert(k[i] == t[i + 1]);
        }
        assert(whole(e, false)[0] == t[0]);
        assert(!outside(t[0]));
        match e[0] {
            Edit::Char(c) => {
                assert(whole(e, false).skip(1) =~= whole(w, false));
                assert(seq![t[0]] =~= c);
                assert((t + r).skip(1) =~= k + r);
            },
            Edit::Swap { from, to } => {
                assert(whole(e, false)[0] == from[0]);
                assert(plain(from[0]));
            },
            Edit::Behind { c, from, to } => {
                assert(whole(e, false)[0] == c[0]);
            },
            Edit::Code(b) => {},
        }
        lemma_token_kept(w, k, r);
        assert(w.skip(k.len() as int) =~= e.skip(t.len() as int));
        let x = whole(e.skip(t.len() as int), true);
        assert(seq![t[0]] + (k + x) =~= t + x);
    }
}

/// Where the text without code starts with characters that stand in no token, the
/// text itself does.
proof fn lemma_aside_outside(
    name: Seq<char>,
    p: Pattern,
    s: Seq<char>,
    h: Seq<char>,
    x: Seq<char>,
    base: nat,
)
    requires
        is_mark(name),
        finds_code(p),
        forall|i: int| 0 <= i < h.len() ==> outside(#[trigger] h[i]) && h[i] != '`',
        set_aside(name, p, s, base).text == h + x,
    ensures
        h.len() <= s.len(),
        s == h + s.skip(h.len() as int),
        set_aside(name, p, s.skip(h.len() as int), base).text == x,
        set_aside(name, p, s.skip(h.len() as int), base).blocks == set_aside(
            name,
            p,
            s,
            base,
        ).blocks,
    decreases h.len(),
{
    if h.len() == 0 {
        assert(s.skip(0) =~= s);
        assert(h + s =~= s);
        assert(h + x =~= x);
    } else {
        assert((h + x).len() > 0);
        if s.len() == 0 {
            assert(s =~= Seq::empty());
            lemma_nothing(name, p, base);
        }
        assert((h + x)[0] == h[0]);
        assert(outside(h[0]));
        if starts_at(p, s, 0) {
            let m = match_from(p, s, 0);
            lemma_one_match(p, s, m, m);
            lemma_aside_code(name, p, s, base, m.end);
            lemma_token(name, base as int);
            assert((h + x)[0] == token(name, base as int)[0]);
        }
        lemma_aside_char(name, p, s, base);
        let k = h.skip(1);
        let u = s.skip(1);
        assert forall|i: int| 0 <= i < k.len() implies outside(#[trigger] k[i]) && k[i] != '`' by {
            assert(k[i] == h[i + 1]);
        }
        assert((h + x).skip(1) =~= k + x);
        assert((seq![s[0]] + set_aside(name, p, u, base).text).skip(1) =~= set_aside(
            name,
            p,
            u,
            base,
        ).text);
        lemma_aside_outside(name, p, u, k, x, base);
        assert(u.skip(k.len() as int) =~= s.skip(h.len() as int));
        assert(seq![s[0]] + u =~= s);
        assert(seq![s[0]] + (k + s.skip(h.len() as int)) =~= h + s.skip(h.len() as int));
    }
}

/// Edits of the text without code, seen as edits of the text.
pub proof fn lift(name: Seq<char>, p: Pattern, s: Seq<char>, base: nat, e: Seq<Edit>) -> (r: Seq<
    Edit,
>)
    requires
        is_mark(name),
        finds_code(p),
        all_allowed(e),
        codeless(e),
        whole(e, false) == set_aside(name, p, s, base).text,
    ensures
        all_allowed(r),
        whole(r, false) == s,
        marked(name, r, true, base) == whole(e, true),
        codes(r) == set_aside(name, p, s, base).blocks,
        settled(p, r, false),
    decreases s.len(),
{
    if s.len() == 0 {
        assert(s =~= Seq::empty());
        lemma_nothing(name, p, base);
        if e.len() > 0 {
            assert(allowed(e[0]));
            assert(!(e[0] is Code));
            assert(piece(e[0], false).len() > 0);
        }
        Seq::empty()
    } else if starts_at(p, s, 0) {
        let m = match_from(p, s, 0);
        lemma_one_match(p, s, m, m);
        let n = m.end;
        lemma_aside_code(name, p, s, base, n);
        lemma_token(name, base as int);
        let t = token(name, base as int);
        let u = s.skip(n);
        lemma_token_kept(e, t, set_aside(name, p, u, base + 1).text);
        let w = e.skip(t.len() as int);
        assert forall|i: int| 0 <= i < w.len() implies allowed(#[trigger] w[i]) && !(w[i] is Code) by {
            assert(w[i] == e[i + t.len()]);
        }
        let rest = lift(name, p, u, base + 1, w);
        let d = Edit::Code(s.take(n));
        let r = seq![d] + rest;
        assert(r.skip(1) =~= rest);
        assert(s.take(n) + u =~= s);
        lemma_match_within(p, s, n);
        r
    } else {
        lemma_aside_char(name, p, s, base);
        assert(set_aside(name, p, s, base).text.len() > 0);
        assert(e.len() > 0);
        let w = e.skip(1);
        assert(allowed(e[0]));
        assert(!(e[0] is Code));
        assert forall|i: int| 0 <= i < w.len() implies allowed(#[trigger] w[i]) && !(w[i] is Code) by {
            assert(w[i] == e[i + 1]);
        }
        let h = piece(e[0], false);
        let x = whole(w, false);
        let u = s.skip(h.len() as int);
        if let Edit::Char(c) = e[0] {
            assert((h + x)[0] == c[0]);
            assert(seq![s[0]] =~= h);
            assert((h + x).skip(1) =~= x);
            assert((seq![s[0]] + set_aside(name, p, u, base).text).skip(1) =~= set_aside(
                name,
                p,
                u,
                base,
            ).text);
            assert(h + u =~= s);
        } else {
            lemma_aside_outside(name, p, s, h, x, base);
        }
        let rest = lift(name, p, u, base, w);
        let r = seq![e[0]] + rest;
        assert(r.skip(1) =~= rest);
        r
    }
}

/// Code is a match by itself.
proof fn lemma_match_within(p: Pattern, s: Seq<char>, n: int)
    requires
        finds_code(p),
        match_at(p, s, bare(0, n)),
    ensures
        0 < n <= s.len(),
        match_at(p, s.take(n), bare(0, n)),
{
    let b = s.take(n);
    if p is Fenced {
        assert forall|j: int| 0 <= j <= n - 3 implies fence(s, j) == #[trigger] fence(b, j) by {
            assert(s.subrange(j, j + 3) =~= b.subrange(j, j + 3));
        }
        assert(fence(b, 0));
        assert(fence(b, n - 3));
    } else {
        assert forall|j: int| 1 <= j < n - 1 implies (pattern::inline_char())(#[trigger] b[j]) by {
            assert((pattern::inline_char())(s[j]));
        }
    }
}

/// Edits with the code that stays as characters that stay.
pub open spec fn spelled(e: Seq<Edit>) -> Seq<Edit>
    decreases e.len(),
{
    if e.len() == 0 {
        Seq::empty()
    } else {
        (match e[0] {
            Edit::Code(b) => keeping(b),
            _ => seq![e[0]],
        }) + spelled(e.skip(1))
    }
}

pub proof fn lemma_spelled(e: Seq<Edit>, new: bool)
    requires
        all_allowed(e),
    ensures
        all_allowed(spelled(e)),
        codeless(spelled(e)),
        whole(spelled(e), new) == whole(e, new),
    decreases e.len(),
{
    if e.len() > 0 {
        let r = e.skip(1);
        assert(allowed(e[0]));
        assert forall|i: int| 0 <= i < r.len() implies allowed(#[trigger] r[i]) by {
            assert(r[i] == e[i + 1]);
        }
        lemma_spelled(r, new);
        let a = match e[0] {
            Edit::Code(b) => keeping(b),
            _ => seq![e[0]],
        };
        if let Edit::Code(b) = e[0] {
            lemma_keeping(b, new);
        } else {
            lemma_whole_one(e[0], new);
        }
        lemma_whole_add(a, spelled(r), new);
        assert forall|i: int| 0 <= i < spelled(e).len() implies allowed(#[trigger] spelled(e)[i])
            && !(spelled(e)[i] is Code) by {
            if i < a.len() {
                assert(spelled(e)[i] == a[i]);
            } else {
                assert(spelled(e)[i] == spelled(r)[i - a.len()]);
            }
        }
    }
}

/// Plain text and the character before it are tokened text, and so is what stands
/// behind them.
proof fn lemma_behind_plain(name: Seq<char>, h: Seq<char>, r: Seq<char>, m: nat)
    requires
        is_mark(name),
        h.len() > 0,
        forall|i: int| 0 <= i < h.len() ==> outside(#[trigger] h[i]),
        tokened(name, h + r, m),
    ensures
        tokened(name, r, m),
{
    let p = h.len() - 1;
    assert((h + r)[p] == h[p]);
    lemma_tokened_cut(name, h + r, m, p);
    assert((h + r).skip(p + 1) =~= r);
}

/// Edits leave a tokened text tokened.
pub proof fn lemma_edits_tokened(name: Seq<char>, e: Seq<Edit>, m: nat)
    requires
        is_mark(name),
        all_allowed(e),
        codeless(e),
        tokened(name, whole(e, false), m),
    ensures
        tokened(name, whole(e, true), m),
    decreases e.len(),
{
    let s = whole(e, false);
    if e.len() == 0 {
    } else if s.len() > 0 && s[0] == '\0' {
        reveal(tokened);
        let i = choose|i: int|
            0 <= i < m && #[trigger] leads(name, s, i) && tokened(
                name,
                s.skip(token(name, i).len() as int),
                m,
            );
        let t = token(name, i);
        let n = t.len() as int;
        lemma_token(name, i);
        assert(s.subrange(0, n) + s.skip(n) =~= s);
        lemma_token_kept(e, t, s.skip(n));
        let w = e.skip(n);
        assert forall|k: int| 0 <= k < w.len() implies allowed(#[trigger] w[k]) && !(w[k] is Code) by {
            assert(w[k] == e[k + n]);
        }
        lemma_edits_tokened(name, w, m);
        let x = whole(w, true);
        assert((t + x).subrange(0, n) =~= t);
        assert((t + x).skip(n) =~= x);
        assert(leads(name, t + x, i));
    } else {
        let w = e.skip(1);
        let a = piece(e[0], false);
        let b = piece(e[0], true);
        assert(allowed(e[0]));
        assert(!(e[0] is Code));
        assert forall|k: int| 0 <= k < w.len() implies allowed(#[trigger] w[k]) && !(w[k] is Code) by {
            assert(w[k] == e[k + 1]);
        }
        assert(s[0] == a[0]);
        match e[0] {
            Edit::Char(c) => {
                reveal(tokened);
                assert(s.skip(1) =~= whole(w, false));
                if !tokened(name, s.skip(1), m) {
                    let i = choose|i: int|
                        0 <= i < m && #[trigger] leads(name, s, i) && tokened(
                            name,
                            s.skip(token(name, i).len() as int),
                            m,
                        );
                    lemma_token(name, i);
                    assert(s.subrange(0, token(name, i).len() as int)[0] == s[0]);
                }
            },
            Edit::Swap { from, to } => {
                assert forall|i: int| 0 <= i < a.len() implies outside(#[trigger] a[i]) by {
                    assert(plain(from[i]));
                }
                assert forall|i: int| 0 <= i < b.len() implies #[trigger] b[i] != '\0' by {
                    assert(plain(to[i]));
                }
                lemma_behind_plain(name, a, whole(w, false), m);
            },
            Edit::Behind { c, from, to } => {
                assert forall|i: int| 0 <= i < a.len() implies outside(#[trigger] a[i]) by {
                    if i > 0 {
                        assert(plain(from[i - 1]));
                    }
                }
                assert forall|i: int| 0 <= i < b.len() implies #[trigger] b[i] != '\0' by {
                    if i > 0 {
                        assert(plain(to[i - 1]));
                    }
                }
                lemma_behind_plain(name, a, whole(w, false), m);
            },
            Edit::Code(_) => {},
        }
        lemma_edits_tokened(name, w, m);
        lemma_plain_tokened(name, b, m);
        lemma_tokened_join(name, b, whole(w, true), m);
    }
}

} // verus!
