//! Restoring a link undoes sweeping it.

use vstd::prelude::*;
use vstd::string::*;

use crate::code_stash;
use crate::code_stash::{
    hidden, interleave, is_mark, lemma_hidden_add, lemma_hidden_first, lemma_token, nul, outside,
    stash, token,
};
use crate::link_laws;
use crate::link_sweeper::{
    all_relinked, all_swept, group, link_as_written, link_of, lost_target, placeholders,
    relink_mark, relink_prose, relinked_text, resolved, said, sweep_mark, swept, swept_text,
    targets, targets_in, wikilinks,
};
use crate::pattern;
use crate::pattern::{
    gap, gaps, link_parts, lost_parts, marker, match_at, match_from, matches_of, placeholder_at,
    scan, starts_at, Match, Pattern,
};
use crate::relink_laws;
use crate::relink_laws::lacks;
use crate::text;
use crate::text::occurs_at;

verus! {

/// Whether a section, written out in prose, stands from `b` to the end of a text.
pub open spec fn section_from(t: Seq<char>, b: int) -> bool {
    &&& 0 < b
    &&& b + 4 < t.len()
    &&& occurs_at(t, seq![' ', '(', '§'], b)
    &&& pattern::run(t, b + 3, t.len() - 1, pattern::lost_section_char())
    &&& t.last() == ')'
}

/// Whether a text ends as a section written out in prose does.
pub open spec fn sectioned(t: Seq<char>) -> bool {
    exists|b: int| section_from(t, b)
}

/// Whether a text can stand between the brackets of a link and be told from what is
/// around it once the brackets are gone.
pub open spec fn plain_target(t: Seq<char>) -> bool {
    &&& t.len() > 0
    &&& text::trim(t) == t
    &&& !(pattern::leading_char())(t[0])
    &&& !sectioned(t)
    &&& forall|i: int|
        0 <= i < t.len() ==> #[trigger] t[i] != '\n' && t[i] != '[' && t[i] != ']' && t[i] != '|'
            && t[i] != '#' && t[i] != '`'
}

/// An item of a list or a quote that starts with a link.
pub open spec fn item(lead: Seq<char>, t: Seq<char>, tail: Seq<char>) -> Seq<char> {
    lead + "[["@ + t + "]]"@ + tail
}

// ---------------------------------------------------------------- without NULs

/// A character that stands in no token stands in a text where it stands in the text
/// without NULs.
proof fn lemma_hidden_lacks(name: Seq<char>, s: Seq<char>, c: char)
    requires
        is_mark(name),
        outside(c),
    ensures
        lacks(hidden(name, s), c) == lacks(s, c),
    decreases s.len(),
{
    if s.len() > 0 {
        let u = s.skip(1);
        let h = hidden(name, s);
        let first = if s[0] == '\0' {
            token(name, 0)
        } else {
            seq![s[0]]
        };
        lemma_token(name, 0);
        lemma_hidden_first(name, s);
        lemma_hidden_lacks(name, u, c);
        if lacks(s, c) {
            assert forall|i: int| 0 <= i < u.len() implies #[trigger] u[i] != c by {
                assert(u[i] == s[i + 1]);
            }
            assert forall|i: int| 0 <= i < h.len() implies #[trigger] h[i] != c by {
                if i < first.len() {
                    assert(h[i] == first[i]);
                } else {
                    assert(h[i] == hidden(name, u)[i - first.len()]);
                }
            }
        }
        if lacks(h, c) {
            assert forall|i: int| 0 <= i < hidden(name, u).len() implies #[trigger] hidden(
                name,
                u,
            )[i] != c by {
                assert(h[i + first.len()] == hidden(name, u)[i]);
            }
            assert forall|i: int| 0 <= i < s.len() implies #[trigger] s[i] != c by {
                if i == 0 {
                    assert(h[0] == first[0]);
                } else {
                    assert(s[i] == u[i - 1]);
                }
            }
        }
    }
}

/// Where a character that stands in no token stands in the text with NULs.
proof fn place_of(name: Seq<char>, s: Seq<char>, p: int) -> (q: int)
    requires
        is_mark(name),
        0 <= p < hidden(name, s).len(),
        outside(hidden(name, s)[p]),
    ensures
        0 <= q < s.len(),
        s[q] == hidden(name, s)[p],
        hidden(name, s.take(q)) == hidden(name, s).take(p),
        hidden(name, s.skip(q + 1)) == hidden(name, s).skip(p + 1),
    decreases s.len(),
{
    let h = hidden(name, s);
    let u = s.skip(1);
    let first = if s[0] == '\0' {
        token(name, 0)
    } else {
        seq![s[0]]
    };
    let n = first.len() as int;
    lemma_token(name, 0);
    assert(s.len() > 0);
    lemma_hidden_first(name, s);
    if p < n {
        assert(h[p] == first[p]);
        assert(s[0] != '\0');
        assert(hidden(name, s.take(0)) =~= h.take(0));
        assert(h.skip(1) =~= hidden(name, u));
        0
    } else {
        assert(h[p] == hidden(name, u)[p - n]);
        let q = place_of(name, u, p - n);
        lemma_hidden_first(name, s.take(q + 1));
        assert(s.take(q + 1).skip(1) =~= u.take(q));
        assert(first + hidden(name, u).take(p - n) =~= h.take(p));
        assert(u.skip(q + 1) =~= s.skip(q + 2));
        assert(hidden(name, u).skip(p - n + 1) =~= h.skip(p + 1));
        q + 1
    }
}

/// The first character, where it stands in no token.
proof fn lemma_hidden_head(name: Seq<char>, s: Seq<char>)
    requires
        is_mark(name),
        s.len() > 0,
    ensures
        hidden(name, s).len() > 0,
        hidden(name, s)[0] == s[0],
        outside(s[0]) ==> hidden(name, s.skip(1)) == hidden(name, s).skip(1),
{
    lemma_token(name, 0);
    lemma_hidden_first(name, s);
    if s[0] != '\0' {
        assert(hidden(name, s).skip(1) =~= hidden(name, s.skip(1)));
    }
}

/// The last character, where it is a NUL or stands in no token.
proof fn lemma_hidden_end(name: Seq<char>, s: Seq<char>)
    requires
        is_mark(name),
        s.len() > 0,
    ensures
        hidden(name, s).len() > 0,
        hidden(name, s).last() == s.last(),
        s.last() != '\0' ==> hidden(name, s.drop_last()) == hidden(name, s).drop_last(),
{
    let x = s.drop_last();
    let y = seq![s.last()];
    assert(x + y =~= s);
    lemma_hidden_add(name, x, y);
    lemma_hidden_first(name, y);
    lemma_token(name, 0);
    assert(y.skip(1) =~= Seq::<char>::empty());
    if s.last() != '\0' {
        assert(hidden(name, y) =~= y);
        assert((hidden(name, x) + y).drop_last() =~= hidden(name, x));
    } else {
        assert(hidden(name, y) =~= token(name, 0));
    }
}

/// A text that ends as a section does so with its NULs too.
proof fn lemma_sectioned(name: Seq<char>, t: Seq<char>)
    requires
        is_mark(name),
        sectioned(hidden(name, t)),
    ensures
        sectioned(t),
{
    let h = hidden(name, t);
    let b = choose|b: int| section_from(h, b);
    let open = seq![' ', '(', '§'];
    relink_laws::lemma_occurs(h, open, b, 0);
    relink_laws::lemma_occurs(h, open, b, 1);
    relink_laws::lemma_occurs(h, open, b, 2);
    let q = place_of(name, t, b);
    if q == 0 {
        assert(t.take(0).len() == 0);
        assert(h.take(b).len() == 0);
    }
    let u = t.skip(q + 1);
    if u.len() == 0 {
        assert(h.skip(b + 1).len() == 0);
    }
    lemma_hidden_head(name, u);
    assert(h.skip(b + 1)[0] == h[b + 1]);
    assert(u[0] == '(');
    let v = u.skip(1);
    assert(hidden(name, v) =~= h.skip(b + 2));
    if v.len() == 0 {
        assert(h.skip(b + 2).len() == 0);
    }
    lemma_hidden_head(name, v);
    assert(h.skip(b + 2)[0] == h[b + 2]);
    assert(v[0] == '§');
    let w = v.skip(1);
    assert(w =~= t.skip(q + 3));
    assert(hidden(name, w) =~= h.skip(b + 3));
    if w.len() == 0 {
        assert(h.skip(b + 3).len() == 0);
    }
    lemma_hidden_end(name, w);
    assert(h.skip(b + 3).last() == h.last());
    let x = w.drop_last();
    assert(hidden(name, x) =~= h.subrange(b + 3, h.len() - 1));
    if x.len() == 0 {
        assert(hidden(name, x).len() == 0);
    }
    assert forall|i: int| 0 <= i < hidden(name, x).len() implies #[trigger] hidden(name, x)[i] != ')'
        && hidden(name, x)[i] != '\n' by {
        assert(hidden(name, x)[i] == h[b + 3 + i]);
        assert((pattern::lost_section_char())(h[b + 3 + i]));
    }
    lemma_hidden_lacks(name, x, ')');
    lemma_hidden_lacks(name, x, '\n');
    assert(t[q + 1] == u[0]);
    assert(t[q + 2] == v[0]);
    assert(t.subrange(q, q + 3) =~= open);
    assert forall|i: int| q + 3 <= i < t.len() - 1 implies (pattern::lost_section_char())(
        #[trigger] t[i],
    ) by {
        assert(x[i - q - 3] == t[i]);
    }
    assert(t.last() == w.last());
    assert(section_from(t, q));
}

/// A text that trimming leaves as it is starts and ends with no white space.
proof fn lemma_trimmed_ends(t: Seq<char>)
    requires
        t.len() > 0,
    ensures
        text::trim(t) == t <==> !text::white(t[0]) && !text::white(t.last()),
{
    if text::white(t[0]) {
        lemma_trim_shorter(t.skip(1));
    } else if text::white(t.last()) {
        lemma_trim_end_shorter(t.drop_last());
    }
}

proof fn lemma_trim_shorter(s: Seq<char>)
    ensures
        text::trim(s).len() <= s.len(),
    decreases s.len(),
{
    if s.len() > 0 && text::white(s[0]) {
        lemma_trim_shorter(s.skip(1));
    } else {
        lemma_trim_end_shorter(s);
    }
}

proof fn lemma_trim_end_shorter(s: Seq<char>)
    ensures
        text::trim_end(s).len() <= s.len(),
    decreases s.len(),
{
    if s.len() > 0 && text::white(s.last()) {
        lemma_trim_end_shorter(s.drop_last());
    }
}

/// A target stays one without its NULs.
proof fn lemma_plain_hidden(name: Seq<char>, t: Seq<char>)
    requires
        is_mark(name),
        plain_target(t),
    ensures
        plain_target(hidden(name, t)),
{
    let h = hidden(name, t);
    lemma_hidden_head(name, t);
    lemma_hidden_end(name, t);
    lemma_trimmed_ends(t);
    lemma_trimmed_ends(h);
    if sectioned(h) {
        lemma_sectioned(name, t);
    }
    assert(lacks(t, '\n') && lacks(t, '[') && lacks(t, ']') && lacks(t, '|') && lacks(t, '#')
        && lacks(t, '`'));
    lemma_hidden_lacks(name, t, '\n');
    lemma_hidden_lacks(name, t, '[');
    lemma_hidden_lacks(name, t, ']');
    lemma_hidden_lacks(name, t, '|');
    lemma_hidden_lacks(name, t, '#');
    lemma_hidden_lacks(name, t, '`');
    assert(lacks(h, '\n') && lacks(h, '[') && lacks(h, ']') && lacks(h, '|') && lacks(h, '#')
        && lacks(h, '`'));
}

/// A text without NUL has none to put aside.
proof fn lemma_nothing_hidden(name: Seq<char>, s: Seq<char>)
    requires
        lacks(s, '\0'),
    ensures
        hidden(name, s) == s,
    decreases s.len(),
{
    if s.len() > 0 {
        lemma_hidden_first(name, s);
        assert forall|i: int| 0 <= i < s.skip(1).len() implies #[trigger] s.skip(1)[i] != '\0' by {
            assert(s.skip(1)[i] == s[i + 1]);
        }
        lemma_nothing_hidden(name, s.skip(1));
        assert(seq![s[0]] + s.skip(1) =~= s);
    }
}

/// What is put aside of a text without code: its NULs.
proof fn lemma_no_code(name: Seq<char>, s: Seq<char>)
    requires
        is_mark(name),
        lacks(s, '`'),
    ensures
        stash(name, s).text == hidden(name, s),
        stash(name, s).blocks == seq![nul()],
{
    let h = hidden(name, s);
    lemma_hidden_lacks(name, s, '`');
    relink_laws::lemma_nothing_aside(name, Pattern::Fenced, h, 1);
    relink_laws::lemma_nothing_aside(name, Pattern::Inline, h, 1);
    assert(stash(name, s).blocks =~= seq![nul()]);
}

/// Putting back what was put aside of a text without code.
proof fn lemma_nuls_back(name: Seq<char>, s: Seq<char>)
    requires
        is_mark(name),
    ensures
        code_stash::restore(name, hidden(name, s), seq![nul()], 1) == s,
{
    reveal_with_fuel(code_stash::restore, 2);
    code_stash::lemma_hidden(name, s);
}

// ---------------------------------------------------------------- one match

/// The only match of a text.
proof fn lemma_only_match(p: Pattern, s: Seq<char>, m: Match, from: int)
    requires
        0 <= from <= m.start < m.end <= s.len(),
        match_at(p, s, m),
        forall|n: Match| n.start == m.start && #[trigger] match_at(p, s, n) ==> n == m,
        forall|i: int| from <= i < m.start ==> !#[trigger] starts_at(p, s, i),
        forall|i: int| m.end <= i < s.len() ==> !#[trigger] starts_at(p, s, i),
    ensures
        scan(p, s, from) == seq![m],
    decreases m.start - from,
{
    if from < m.start {
        assert(!starts_at(p, s, from));
        lemma_only_match(p, s, m, from + 1);
    } else {
        assert(starts_at(p, s, from));
        assert(match_from(p, s, from) == m);
        lemma_no_match(p, s, m.end);
        assert(seq![m] + scan(p, s, m.end) =~= seq![m]);
    }
}

proof fn lemma_no_match(p: Pattern, s: Seq<char>, from: int)
    requires
        0 <= from,
        forall|i: int| from <= i < s.len() ==> !#[trigger] starts_at(p, s, i),
    ensures
        scan(p, s, from) == Seq::<Match>::empty(),
    decreases s.len() - from,
{
    if from < s.len() {
        assert(!starts_at(p, s, from));
        lemma_no_match(p, s, from + 1);
    }
}

/// A text with its only match replaced.
proof fn lemma_one_spliced(s: Seq<char>, m: Match, new: Seq<char>)
    requires
        0 <= m.start <= m.end <= s.len(),
    ensures
        code_stash::spliced(s, seq![m], seq![new]) == s.take(m.start) + new + s.skip(m.end),
{
    let gs = gaps(s, seq![m]);
    reveal_with_fuel(interleave, 2);
    assert(gs[0] == gap(s, seq![m], 0));
    assert(gs[1] == gap(s, seq![m], 1));
    assert(gs[0] =~= s.take(m.start));
    assert(gs[1] =~= s.skip(m.end));
}

// ---------------------------------------------------------------- sweeping

/// What stands where in an item.
proof fn lemma_item(lead: Seq<char>, t: Seq<char>, tail: Seq<char>)
    requires
        plain_target(t),
        lacks(lead, '['),
        lacks(tail, '['),
    ensures
        ({
            let s = item(lead, t, tail);
            let n = lead.len() as int;
            let a = n + 2 + t.len();
            &&& s.len() == a + 2 + tail.len()
            &&& s[n] == '['
            &&& s[n + 1] == '['
            &&& s[a] == ']'
            &&& s[a + 1] == ']'
            &&& s.subrange(n + 2, a) == t
            &&& s.take(n) == lead
            &&& s.skip(a + 2) == tail
            &&& forall|i: int| 0 <= i < s.len() ==> (#[trigger] s[i] == '[' ==> i == n || i == n + 1)
        }),
{
    reveal_strlit("[[");
    reveal_strlit("]]");
    let s = item(lead, t, tail);
    let n = lead.len() as int;
    let a = n + 2 + t.len();
    assert(s.subrange(n + 2, a) =~= t);
    assert(s.take(n) =~= lead);
    assert(s.skip(a + 2) =~= tail);
    assert forall|i: int| 0 <= i < s.len() implies (#[trigger] s[i] == '[' ==> i == n || i == n
        + 1) by {
        if i < n {
            assert(s[i] == lead[i]);
        } else if n + 2 <= i < a {
            assert(s[i] == t[i - n - 2]);
        } else if i >= a + 2 {
            assert(s[i] == tail[i - a - 2]);
        }
    }
}

/// The link of an item, as the pattern finds it.
spec fn link_match(n: int, a: int) -> Match {
    Match {
        start: n,
        end: a + 2,
        groups: seq![Some((n, a + 2)), Some((n + 2, a)), None, None, None, None],
    }
}

/// Whether a text has one pair of opening brackets and a link behind it.
spec fn has_one_link(s: Seq<char>, n: int, a: int) -> bool {
    &&& 0 <= n
    &&& n + 2 < a
    &&& a + 2 <= s.len()
    &&& s[n] == '['
    &&& s[n + 1] == '['
    &&& s[a] == ']'
    &&& s[a + 1] == ']'
    &&& forall|i: int| n + 2 <= i < a ==> (pattern::target_char())(#[trigger] s[i])
    &&& forall|i: int| 0 <= i < s.len() ==> (#[trigger] s[i] == '[' ==> i == n || i == n + 1)
}

proof fn lemma_link_there(s: Seq<char>, n: int, a: int)
    requires
        has_one_link(s, n, a),
    ensures
        match_at(Pattern::Wikilink, s, link_match(n, a)),
{
    assert(s.subrange(n, n + 2) =~= seq!['[', '[']);
    assert(s.subrange(a, a + 2) =~= seq![']', ']']);
    assert(link_parts(s, link_match(n, a), a, a, a));
}

proof fn lemma_no_link_elsewhere(s: Seq<char>, n: int, a: int, i: int)
    requires
        has_one_link(s, n, a),
        0 <= i,
        i != n,
    ensures
        !starts_at(Pattern::Wikilink, s, i),
{
    if starts_at(Pattern::Wikilink, s, i) {
        let k = match_from(Pattern::Wikilink, s, i);
        let (a2, b2, c2) = choose|a2: int, b2: int, c2: int| link_parts(s, k, a2, b2, c2);
        relink_laws::lemma_occurs(s, seq!['[', '['], i, 0);
        relink_laws::lemma_occurs(s, seq!['[', '['], i, 1);
        assert(s[i] == '[' && s[i + 1] == '[');
    }
}

proof fn lemma_one_link(s: Seq<char>, n: int, a: int, k: Match)
    requires
        has_one_link(s, n, a),
        k.start == n,
        match_at(Pattern::Wikilink, s, k),
    ensures
        k == link_match(n, a),
{
    let (a2, b2, c2) = choose|a2: int, b2: int, c2: int| link_parts(s, k, a2, b2, c2);
    if a2 < a {
        if a2 == b2 && b2 == c2 {
            relink_laws::lemma_occurs(s, seq![']', ']'], c2, 0);
        }
        assert((pattern::target_char())(s[a2]));
    }
    if a2 > a {
        assert((pattern::target_char())(s[a]));
    }
    assert(a2 == a);
    assert(a2 == b2 && b2 == c2);
    assert(k.groups =~= link_match(n, a).groups);
}

proof fn lemma_links(s: Seq<char>, n: int, a: int)
    requires
        has_one_link(s, n, a),
    ensures
        matches_of(Pattern::Wikilink, s) == seq![link_match(n, a)],
{
    let m = link_match(n, a);
    lemma_link_there(s, n, a);
    assert forall|i: int| 0 <= i < s.len() && i != n implies !#[trigger] starts_at(
        Pattern::Wikilink,
        s,
        i,
    ) by {
        lemma_no_link_elsewhere(s, n, a, i);
    }
    assert forall|k: Match|
        k.start == m.start && #[trigger] match_at(Pattern::Wikilink, s, k) implies k == m by {
        lemma_one_link(s, n, a, k);
    }
    lemma_only_match(Pattern::Wikilink, s, m, 0);
}

proof fn lemma_item_link(lead: Seq<char>, t: Seq<char>, tail: Seq<char>)
    requires
        plain_target(t),
        lacks(lead, '['),
        lacks(tail, '['),
    ensures
        matches_of(Pattern::Wikilink, item(lead, t, tail)) == seq![
            link_match(lead.len() as int, (lead.len() + 2 + t.len()) as int),
        ],
{
    let s = item(lead, t, tail);
    let n = lead.len() as int;
    let a = n + 2 + t.len();
    lemma_item(lead, t, tail);
    assert forall|i: int| n + 2 <= i < a implies (pattern::target_char())(#[trigger] s[i]) by {
        assert(s.subrange(n + 2, a)[i - n - 2] == t[i - n - 2]);
    }
    lemma_links(s, n, a);
}

/// The item with its link swept.
spec fn swept_item(lead: Seq<char>, t: Seq<char>, tail: Seq<char>) -> Seq<char> {
    lead + (t + marker()) + tail
}

/// An item without its NULs.
proof fn lemma_item_hidden(name: Seq<char>, lead: Seq<char>, t: Seq<char>, tail: Seq<char>)
    requires
        lacks(lead, '\0'),
    ensures
        hidden(name, item(lead, t, tail)) == item(lead, hidden(name, t), hidden(name, tail)),
        hidden(name, swept_item(lead, t, tail)) == swept_item(
            lead,
            hidden(name, t),
            hidden(name, tail),
        ),
{
    reveal_strlit("[[");
    reveal_strlit("]]");
    reveal_strlit(" [possible linkout - elaboration needed]");
    lemma_nothing_hidden(name, lead);
    lemma_nothing_hidden(name, "[["@);
    lemma_nothing_hidden(name, "]]"@);
    lemma_nothing_hidden(name, marker());
    lemma_hidden_add(name, lead, "[["@);
    lemma_hidden_add(name, lead + "[["@, t);
    lemma_hidden_add(name, lead + "[["@ + t, "]]"@);
    lemma_hidden_add(name, lead + "[["@ + t + "]]"@, tail);
    lemma_hidden_add(name, t, marker());
    lemma_hidden_add(name, lead, t + marker());
    lemma_hidden_add(name, lead + (t + marker()), tail);
}

/// An item has no backtick, nor has the item with its link swept.
proof fn lemma_item_untold(lead: Seq<char>, t: Seq<char>, tail: Seq<char>)
    requires
        plain_target(t),
        lacks(lead, '`'),
        lacks(tail, '`'),
    ensures
        lacks(item(lead, t, tail), '`'),
        lacks(swept_item(lead, t, tail), '`'),
{
    reveal_strlit("[[");
    reveal_strlit("]]");
    reveal_strlit(" [possible linkout - elaboration needed]");
    let n = lead.len() as int;
    let s = item(lead, t, tail);
    let a = n + 2 + t.len();
    assert forall|i: int| 0 <= i < s.len() implies #[trigger] s[i] != '`' by {
        if i < n {
            assert(s[i] == lead[i]);
        } else if n + 2 <= i < a {
            assert(s[i] == t[i - n - 2]);
        } else if i >= a + 2 {
            assert(s[i] == tail[i - a - 2]);
        }
    }
    let r = swept_item(lead, t, tail);
    let b = n + t.len();
    let k = b + marker().len();
    assert forall|i: int| 0 <= i < r.len() implies #[trigger] r[i] != '`' by {
        if i < n {
            assert(r[i] == lead[i]);
        } else if i < b {
            assert(r[i] == t[i - n]);
        } else if i < k {
            assert(r[i] == marker()[i - b]);
        } else {
            assert(r[i] == tail[i - k]);
        }
    }
}

/// The link of a text that has one.
proof fn lemma_link_of(s: Seq<char>, n: int, a: int, t: Seq<char>)
    requires
        matches_of(Pattern::Wikilink, s) == seq![link_match(n, a)],
        0 <= n <= a <= s.len(),
        s.subrange(n + 2, a) == t,
        text::trim(t) == t,
    ensures
        wikilinks(s).len() == 1,
        link_of(wikilinks(s)[0]).target == t,
        link_of(wikilinks(s)[0]).section is None,
        link_of(wikilinks(s)[0]).alias is None,
{
    let m = link_match(n, a);
    let gs = wikilinks(s);
    assert(gs.len() == 1);
    let g = gs[0];
    assert(g == pattern::groups_of(s, m));
    assert(g[1] == pattern::group_text(s, m.groups[1]));
    assert(g[3] == pattern::group_text(s, m.groups[3]));
    assert(g[5] == pattern::group_text(s, m.groups[5]));
    assert(group(g, 1) == t);
    assert(group(g, 3).len() == 0 && group(g, 5).len() == 0);
    assert(said(g, 3) is None && said(g, 5) is None);
}

/// The link of an item, and the item with something else in its place.
proof fn lemma_item_parts(lead: Seq<char>, t: Seq<char>, tail: Seq<char>, new: Seq<char>)
    requires
        plain_target(t),
        lacks(lead, '['),
        lacks(tail, '['),
    ensures
        ({
            let s = item(lead, t, tail);
            let gs = wikilinks(s);
            &&& gs.len() == 1
            &&& link_of(gs[0]).target == t
            &&& link_of(gs[0]).section is None
            &&& link_of(gs[0]).alias is None
            &&& code_stash::spliced(s, matches_of(Pattern::Wikilink, s), seq![new]) == lead + new
                + tail
        }),
{
    let s = item(lead, t, tail);
    let n = lead.len() as int;
    let a = n + 2 + t.len();
    let m = link_match(n, a);
    lemma_item(lead, t, tail);
    lemma_item_link(lead, t, tail);
    lemma_link_of(s, n, a, t);
    lemma_one_spliced(s, m, new);
}

proof fn lemma_item_swept(
    lead: Seq<char>,
    t: Seq<char>,
    tail: Seq<char>,
    existing: Set<Seq<char>>,
)
    requires
        plain_target(t),
        lacks(lead, '\0'),
        lacks(lead, '['),
        lacks(tail, '['),
        lacks(lead, '`'),
        lacks(tail, '`'),
        !resolved(t, existing),
    ensures
        swept_text(item(lead, t, tail), existing) == swept_item(lead, t, tail),
{
    let name = sweep_mark();
    let x = hidden(name, t);
    let y = hidden(name, tail);
    let s = item(lead, x, y);
    let blocks = seq![nul()];
    link_laws::lemma_marks();
    lemma_plain_hidden(name, t);
    lemma_hidden_lacks(name, tail, '[');
    lemma_item_hidden(name, lead, t, tail);
    lemma_item_untold(lead, t, tail);
    lemma_no_code(name, item(lead, t, tail));
    lemma_item_parts(lead, x, y, x + marker());
    let gs = wikilinks(s);
    lemma_nuls_back(name, t);
    assert(link_as_written(gs[0], blocks).target == t);
    assert(swept(gs[0], blocks, existing) == x + marker());
    assert(all_swept(gs, blocks, existing) =~= seq![x + marker()]);
    lemma_nuls_back(name, swept_item(lead, t, tail));
}

// ---------------------------------------------------------------- restoring

/// The lost link of an item, as the pattern finds it.
spec fn lost_match(n: int, b: int) -> Match {
    Match {
        start: 0,
        end: b + 40,
        groups: seq![Some((0, b + 40)), Some((0, n)), Some((n, b)), None],
    }
}

/// What stands where in an item whose link is lost.
proof fn lemma_lost_item(lead: Seq<char>, t: Seq<char>, tail: Seq<char>)
    requires
        plain_target(t),
        lacks(lead, '['),
        lacks(tail, '['),
    ensures
        ({
            let s = swept_item(lead, t, tail);
            let n = lead.len() as int;
            let b = n + t.len();
            &&& s.len() == b + 40 + tail.len()
            &&& s.take(n) == lead
            &&& s.subrange(n, b) == t
            &&& occurs_at(s, marker(), b)
            &&& s.skip(b + 40) == tail
            &&& forall|i: int| 0 <= i < s.len() ==> (#[trigger] s[i] == '[' ==> i == b + 1)
        }),
{
    relink_laws::lemma_marker();
    let s = swept_item(lead, t, tail);
    let n = lead.len() as int;
    let b = n + t.len();
    assert(s.take(n) =~= lead);
    assert(s.subrange(n, b) =~= t);
    assert(s.subrange(b, b + 40) =~= marker());
    assert(s.skip(b + 40) =~= tail);
    assert forall|i: int| 0 <= i < s.len() implies (#[trigger] s[i] == '[' ==> i == b + 1) by {
        if i < n {
            assert(s[i] == lead[i]);
        } else if i < b {
            assert(s[i] == t[i - n]);
        } else if i < b + 40 {
            assert(s[i] == marker()[i - b]);
        } else {
            assert(s[i] == tail[i - b - 40]);
        }
    }
}

/// The parts of any lost link of the item.
proof fn lemma_parts(
    lead: Seq<char>,
    t: Seq<char>,
    tail: Seq<char>,
    m: Match,
    a: int,
    b: int,
    f: int,
)
    requires
        plain_target(t),
        lacks(lead, '['),
        lacks(tail, '['),
        lost_parts(swept_item(lead, t, tail), m, a, b, f),
    ensures
        f == lead.len() + t.len(),
        m.start < lead.len() ==> a <= lead.len(),
        a == lead.len() ==> b == f,
{
    let s = swept_item(lead, t, tail);
    let n = lead.len() as int;
    lemma_lost_item(lead, t, tail);
    relink_laws::lemma_marker();
    relink_laws::lemma_occurs(s, marker(), f, 1);
    assert(s[f + 1] == '[');
    assert(s.subrange(n, f)[0] == s[n]);
    assert(s[n] == t[0]);
    if m.start < n && a > n {
        assert((pattern::leading_char())(s[n]));
    }
    if a == n && b < f {
        let k = b - n;
        assert(t.subrange(k, k + 3) =~= s.subrange(b, b + 3));
        assert forall|i: int| k + 3 <= i < t.len() - 1 implies (pattern::lost_section_char())(
            #[trigger] t[i],
        ) by {
            assert(s.subrange(n, f)[i] == s[n + i]);
            assert((pattern::lost_section_char())(s[n + i]));
        }
        assert(s.subrange(n, f)[t.len() - 1] == s[f - 1]);
        assert(section_from(t, k));
    }
}

proof fn lemma_item_lost(lead: Seq<char>, t: Seq<char>, tail: Seq<char>)
    requires
        plain_target(t),
        lead.len() > 0,
        forall|i: int| 0 <= i < lead.len() ==> (pattern::leading_char())(#[trigger] lead[i]),
        lacks(lead, '['),
        lacks(tail, '['),
    ensures
        matches_of(Pattern::Placeholder, swept_item(lead, t, tail)) == seq![
            lost_match(lead.len() as int, (lead.len() + t.len()) as int),
        ],
{
    let s = swept_item(lead, t, tail);
    let n = lead.len() as int;
    let b = n + t.len();
    let m = lost_match(n, b);
    lemma_lost_item(lead, t, tail);
    relink_laws::lemma_marker();
    assert forall|i: int| 0 <= i < n implies (pattern::leading_char())(#[trigger] s[i]) by {
        assert(s.take(n)[i] == s[i]);
    }
    assert forall|i: int| n <= i < b implies (pattern::display_char())(#[trigger] s[i]) by {
        assert(s.subrange(n, b)[i - n] == s[i]);
    }
    assert(lost_parts(s, m, n, b, b));
    assert forall|m2: Match, a2: int, b2: int, f2: int|
        m2.start == 0 && #[trigger] lost_parts(s, m2, a2, b2, f2) implies a2 < n || (a2 == n && b
        <= b2) by {
        lemma_parts(lead, t, tail, m2, a2, b2, f2);
    }
    assert(placeholder_at(s, m));
    assert(match_at(Pattern::Placeholder, s, m));
    assert forall|k: Match|
        k.start == m.start && #[trigger] match_at(Pattern::Placeholder, s, k) implies k == m by {
        reveal(relink_laws::first_choice);
        let (ak, bk, fk) = relink_laws::choice_of(s, k);
        lemma_parts(lead, t, tail, k, ak, bk, fk);
        assert(n < ak || (n == ak && bk <= b));
        assert(k.groups =~= m.groups);
    }
    assert forall|i: int| m.end <= i < s.len() implies !#[trigger] starts_at(
        Pattern::Placeholder,
        s,
        i,
    ) by {
        if starts_at(Pattern::Placeholder, s, i) {
            let k = match_from(Pattern::Placeholder, s, i);
            let (ak, bk, fk) = relink_laws::choice_of(s, k);
            lemma_parts(lead, t, tail, k, ak, bk, fk);
        }
    }
    lemma_only_match(Pattern::Placeholder, s, m, 0);
}

/// An item that starts with a link to no note, swept and then restored, is the item it
/// was, and the target of its link is what was restored.
pub proof fn law_relink_undoes_sweep(
    lead: Seq<char>,
    t: Seq<char>,
    tail: Seq<char>,
    existing: Set<Seq<char>>,
)
    requires
        lead.len() > 0,
        forall|i: int| 0 <= i < lead.len() ==> (pattern::leading_char())(#[trigger] lead[i]),
        plain_target(t),
        lacks(tail, '['),
        lacks(tail, '`'),
        !resolved(t, existing),
    ensures
        relinked_text(swept_text(item(lead, t, tail), existing)) == item(lead, t, tail),
        targets_in(swept_text(item(lead, t, tail), existing)) == seq![t],
{
    let name = relink_mark();
    let x = hidden(name, t);
    let y = hidden(name, tail);
    let s = swept_item(lead, x, y);
    let n = lead.len() as int;
    let b = n + x.len();
    let m = lost_match(n, b);
    assert forall|i: int| 0 <= i < lead.len() implies #[trigger] lead[i] != '[' && lead[i] != '`'
        && lead[i] != '\0' by {
        assert((pattern::leading_char())(lead[i]));
    }
    link_laws::lemma_marks();
    lemma_item_swept(lead, t, tail, existing);
    lemma_plain_hidden(name, t);
    lemma_hidden_lacks(name, tail, '[');
    lemma_item_hidden(name, lead, t, tail);
    lemma_item_untold(lead, t, tail);
    lemma_no_code(name, swept_item(lead, t, tail));
    lemma_lost_item(lead, x, y);
    lemma_item_lost(lead, x, y);
    relink_laws::lemma_marker();
    let gs = placeholders(s);
    let g = pattern::groups_of(s, m);
    assert(gs =~= seq![g]);
    assert(g[1] == pattern::group_text(s, m.groups[1]));
    assert(g[2] == pattern::group_text(s, m.groups[2]));
    assert(g[3] == pattern::group_text(s, m.groups[3]));
    assert(s.subrange(0, n) =~= lead);
    assert(group(g, 1) == lead);
    assert(group(g, 2) == x);
    assert(group(g, 3).len() == 0);
    assert(lost_target(g) == Some(x));
    assert(all_relinked(gs) =~= seq![lead + "[["@ + x + "]]"@]);
    lemma_one_spliced(s, m, lead + "[["@ + x + "]]"@);
    assert(relink_prose(s) =~= item(lead, x, y));
    lemma_nuls_back(name, item(lead, t, tail));
    lemma_nuls_back(name, t);
    reveal_with_fuel(targets, 2);
    assert(targets(gs, 1) =~= seq![x]);
    assert(targets_in(swept_text(item(lead, t, tail), existing)) =~= seq![t]);
}

} // verus!
