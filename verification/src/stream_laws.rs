//! What reading the stream of events promises: where its blocks end, which line of a
//! block counts, and which members make an event.

use vstd::prelude::*;
use vstd::string::*;

use crate::client::{
    block_data, blocks, count_under, data_of, event_in, event_slots, first_break, row_text,
    slot_values, spelled, unfinished, value_named, values_named,
};
use crate::json;
use crate::json_object::{cut, inner, lexed, members, named_value, parts, stepped, Lexed};
use crate::text;
use crate::text::{contains, lines, occurs_at, starts_with, trim};

verus! {

/// The count that is given for a status is the first one that was reported under its
/// name; none reported is zero.
pub proof fn law_count_under(
    before: Seq<(String, i64)>,
    hit: (String, i64),
    after: Seq<(String, i64)>,
    status: Seq<char>,
)
    requires
        forall|i: int| 0 <= i < before.len() ==> (#[trigger] before[i]).0@ != status,
    ensures
        count_under(before, status) == 0,
        hit.0@ == status ==> count_under(before + seq![hit] + after, status) == hit.1,
    decreases before.len(),
{
    let all = before + seq![hit] + after;
    if before.len() > 0 {
        let rest = before.skip(1);
        assert(before[0].0@ != status);
        assert forall|i: int| 0 <= i < rest.len() implies (#[trigger] rest[i]).0@ != status by {
            assert(rest[i] == before[i + 1]);
        }
        law_count_under(rest, hit, after, status);
        assert(all.skip(1) =~= rest + seq![hit] + after);
        assert(all[0] == before[0]);
    } else {
        assert(all[0] == hit);
    }
}

/// A block ends at the first empty line. What stands behind it is read as a stream of
/// its own, and without an empty line there is no block yet.
pub proof fn law_blocks(block: Seq<char>, rest: Seq<char>)
    ensures
        !contains(block + "\n"@, "\n\n"@) ==> {
            &&& blocks(block + "\n\n"@ + rest) == seq![block] + blocks(rest)
            &&& unfinished(block + "\n\n"@ + rest) == unfinished(rest)
        },
        !contains(rest, "\n\n"@) ==> blocks(rest).len() == 0 && unfinished(rest) == rest,
{
    reveal_strlit("\n\n");
    reveal_strlit("\n");
    let nl = "\n\n"@;
    let s = block + nl + rest;
    let n = block.len() as int;
    if !contains(block + "\n"@, nl) {
        assert(s.subrange(n, n + 2) =~= nl);
        assert(occurs_at(s, nl, n));
        assert forall|q: int| 0 <= q < n implies !occurs_at(s, nl, q) by {
            if occurs_at(s, nl, q) {
                assert((block + "\n"@).subrange(q, q + 2) =~= s.subrange(q, q + 2));
                assert(occurs_at(block + "\n"@, nl, q));
            }
        }
        assert(first_break(s, n));
        let p = choose|p: int| first_break(s, p);
        assert(p == n);
        assert(s.take(n) =~= block);
        assert(s.skip(n + 2) =~= rest);
    }
}

/// Of the lines of a block the last one that begins with `data:` counts, without that
/// word and without the blanks around it.
pub proof fn law_data_line(ls: Seq<Seq<char>>, l: Seq<char>)
    ensures
        data_of(Seq::empty()) is None,
        data_of(ls.push("data:"@ + l)) == Some(trim(l)),
        !starts_with(l, "data:"@) ==> data_of(ls.push(l)) == data_of(ls),
{
    reveal_strlit("data:");
    let d = "data:"@ + l;
    assert(d.subrange(0, 5) =~= "data:"@);
    assert(occurs_at(d, "data:"@, 0));
    assert(d.skip(5) =~= l);
    assert(ls.push(d).drop_last() =~= ls);
    assert(ls.push(l).drop_last() =~= ls);
}

/// A block gives what its last data line says, and nothing where that says nothing.
pub proof fn law_block_data(block: Seq<char>, front: Seq<Seq<char>>, l: Seq<char>)
    requires
        lines(block) == front.push("data:"@ + l),
    ensures
        trim(l).len() > 0 ==> block_data(block) == Some(trim(l)),
        trim(l).len() == 0 ==> block_data(block) is None,
{
    law_data_line(front, l);
}

// ---------------------------------------------------------------- members of an event

/// The values under a name, in order; those under another name are not among them.
pub proof fn law_values_named(ms: Seq<(Seq<char>, Seq<char>)>, m: (Seq<char>, Seq<char>), name: Seq<char>)
    ensures
        values_named(Seq::empty(), name).len() == 0,
        m.0 == name ==> values_named(ms.push(m), name) == values_named(ms, name).push(m.1),
        m.0 != name ==> values_named(ms.push(m), name) == values_named(ms, name),
{
    assert(ms.push(m).drop_last() =~= ms);
}

/// The values of an event are written in the order in which its row has them, whatever
/// the order in which the object had them. Only the file and the detail may be absent.
pub proof fn law_row_order(
    ms: Seq<(Seq<char>, Seq<char>)>,
    id: Seq<char>,
    ts: Seq<char>,
    level: Seq<char>,
    kind: Seq<char>,
    file: Option<Seq<char>>,
    message: Seq<char>,
    detail: Option<Seq<char>>,
)
    requires
        values_named(ms, "id"@) == seq![id],
        values_named(ms, "ts"@) == seq![ts],
        values_named(ms, "level"@) == seq![level],
        values_named(ms, "kind"@) == seq![kind],
        values_named(ms, "file_id"@) == given(file),
        values_named(ms, "message"@) == seq![message],
        values_named(ms, "detail"@) == given(detail),
    ensures
        row_text(ms) == Some(
            "["@ + id + ","@ + ts + ","@ + level + ","@ + kind + ","@ + or_null(file) + ","@ + message
                + ","@ + or_null(detail) + "]"@,
        ),
{
    let slots = event_slots();
    assert(slots.len() == 7);
    let vs = seq![id, ts, level, kind, or_null(file), message, or_null(detail)];
    assert(slots[0] == ("id"@, false));
    assert(slots[1] == ("ts"@, false));
    assert(slots[2] == ("level"@, false));
    assert(slots[3] == ("kind"@, false));
    assert(slots[4] == ("file_id"@, true));
    assert(slots[5] == ("message"@, false));
    assert(slots[6] == ("detail"@, true));
    let f1 = Seq::<Seq<char>>::empty().push(id);
    let f2 = f1.push(ts);
    let f3 = f2.push(level);
    let f4 = f3.push(kind);
    let f5 = f4.push(or_null(file));
    let f6 = f5.push(message);
    let f7 = f6.push(or_null(detail));
    assert(slot_values(ms, 0) == Some(Seq::<Seq<char>>::empty()));
    assert(slot_values(ms, 1) == Some(f1));
    assert(slot_values(ms, 2) == Some(f2));
    assert(slot_values(ms, 3) == Some(f3));
    assert(slot_values(ms, 4) == Some(f4));
    assert(slot_values(ms, 5) == Some(f5));
    assert(slot_values(ms, 6) == Some(f6));
    assert(slot_values(ms, 7) == Some(f7));
    let c = ","@;
    crate::text_laws::law_join(f1, ts, c);
    crate::text_laws::law_join(f2, level, c);
    crate::text_laws::law_join(f3, kind, c);
    crate::text_laws::law_join(f4, or_null(file), c);
    crate::text_laws::law_join(f5, message, c);
    crate::text_laws::law_join(f6, or_null(detail), c);
    crate::text_laws::law_join(f1, id, c);
    assert(f1 =~= seq![id]);
    let j = id + c + ts + c + level + c + kind + c + or_null(file) + c + message + c + or_null(detail);
    assert(text::join(f7, c) == j);
    assert("["@ + j + "]"@ =~= "["@ + id + c + ts + c + level + c + kind + c + or_null(file) + c
        + message + c + or_null(detail) + "]"@);
}

/// An object without one of the members that every event has is no event.
pub proof fn law_row_needs(ms: Seq<(Seq<char>, Seq<char>)>, name: Seq<char>)
    requires
        name == "id"@ || name == "ts"@ || name == "level"@ || name == "kind"@ || name == "message"@,
        values_named(ms, name).len() != 1,
    ensures
        row_text(ms) is None,
{
    let slots = event_slots();
    assert(slots[0] == ("id"@, false));
    assert(slots[1] == ("ts"@, false));
    assert(slots[2] == ("level"@, false));
    assert(slots[3] == ("kind"@, false));
    assert(slots[5] == ("message"@, false));
    let k: int = if name == "id"@ {
        0
    } else if name == "ts"@ {
        1
    } else if name == "level"@ {
        2
    } else if name == "kind"@ {
        3
    } else {
        5
    };
    assert(slots[k].0 == name && !slots[k].1);
    assert(value_named(ms, name, false) is None);
    assert(slot_values(ms, (k + 1) as nat) is None);
    lemma_none_stays(ms, (k + 1) as nat, slots.len());
}

/// An event that comes as an object is the one that comes as the row of its values; what
/// is no JSON, or lacks a member, is none.
pub proof fn law_object_is_row(d: Seq<char>, ms: Seq<(Seq<char>, Seq<char>)>)
    requires
        d.len() > 0,
        d[0] == '{',
        spelled(members(d)) == Some(ms),
    ensures
        row_text(ms) matches Some(t) ==> json::json_syntax(d) ==> event_in(d) == event_in(t),
        row_text(ms) is None ==> event_in(d) is None,
        !json::json_syntax(d) ==> event_in(d) is None,
{
    reveal_strlit("[");
    if let Some(t) = row_text(ms) {
        assert(t[0] == '[');
    }
}

/// The values that stand for one that may be absent.
pub open spec fn given(v: Option<Seq<char>>) -> Seq<Seq<char>> {
    match v {
        Some(t) => seq![t],
        None => seq![],
    }
}

/// A value, or the word for an absent one.
pub open spec fn or_null(v: Option<Seq<char>>) -> Seq<char> {
    match v {
        Some(t) => t,
        None => "null"@,
    }
}

proof fn lemma_none_stays(ms: Seq<(Seq<char>, Seq<char>)>, n: nat, m: nat)
    requires
        n <= m,
        slot_values(ms, n) is None,
    ensures
        slot_values(ms, m) is None,
    decreases m,
{
    if n < m {
        lemma_none_stays(ms, n, (m - 1) as nat);
    }
}

// ---------------------------------------------------------------- members of an object

/// What a character opens and closes. Inside a string only a quote counts, and not one
/// that is escaped.
pub proof fn law_stepped(d: int, c: char)
    ensures
        ({
            let open = Lexed { depth: d, quoted: false, escaped: false };
            let within = Lexed { depth: d, quoted: true, escaped: false };
            let behind = Lexed { depth: d, quoted: true, escaped: true };
            &&& c == '{' || c == '[' ==> stepped(open, c).depth == d + 1
            &&& c == '}' || c == ']' ==> stepped(open, c).depth == d - 1
            &&& c == '"' ==> stepped(open, c) == within && stepped(within, c) == open
            &&& !is_mark(c) ==> stepped(open, c) == open
            &&& c == '\\' ==> stepped(within, c) == behind
            &&& c != '"' && c != '\\' ==> stepped(within, c) == within
            &&& stepped(behind, c) == within
        }),
{
}

/// Whether a character opens or closes a bracket or a string.
pub open spec fn is_mark(c: char) -> bool {
    c == '{' || c == '[' || c == '}' || c == ']' || c == '"'
}

/// Whether nothing is open behind a text.
pub open spec fn closes(s: Seq<char>) -> bool {
    lexed(s, s.len() as int) == (Lexed { depth: 0, quoted: false, escaped: false })
}

/// A text without brackets and quotes leaves nothing open, and neither does a string
/// without escapes, whatever else stands in it.
pub proof fn law_closes(s: Seq<char>)
    ensures
        (forall|i: int| 0 <= i < s.len() ==> !is_mark(#[trigger] s[i])) ==> closes(s),
        (forall|i: int| 0 <= i < s.len() ==> (#[trigger] s[i]) != '"' && s[i] != '\\') ==> closes(
            seq!['"'] + s + seq!['"'],
        ),
{
    if forall|i: int| 0 <= i < s.len() ==> !is_mark(#[trigger] s[i]) {
        lemma_plain(s, s.len() as int);
    }
    if forall|i: int| 0 <= i < s.len() ==> (#[trigger] s[i]) != '"' && s[i] != '\\' {
        let q = seq!['"'] + s + seq!['"'];
        lemma_in_string(s, s.len() as int);
        assert(lexed(q, q.len() as int) == stepped(lexed(q, s.len() as int + 1), '"'));
    }
}

proof fn lemma_plain(s: Seq<char>, n: int)
    requires
        0 <= n <= s.len(),
        forall|i: int| 0 <= i < s.len() ==> !is_mark(#[trigger] s[i]),
    ensures
        lexed(s, n) == (Lexed { depth: 0, quoted: false, escaped: false }),
    decreases n,
{
    if n > 0 {
        lemma_plain(s, n - 1);
        assert(!is_mark(s[n - 1]));
    }
}

proof fn lemma_in_string(s: Seq<char>, n: int)
    requires
        0 <= n <= s.len(),
        forall|i: int| 0 <= i < s.len() ==> (#[trigger] s[i]) != '"' && s[i] != '\\',
    ensures
        lexed(seq!['"'] + s + seq!['"'], n + 1) == (Lexed {
            depth: 0,
            quoted: true,
            escaped: false,
        }),
    decreases n,
{
    let q = seq!['"'] + s + seq!['"'];
    if n > 0 {
        lemma_in_string(s, n - 1);
        assert(q[n] == s[n - 1]);
    } else {
        assert(q[0] == '"');
        assert(lexed(q, 0) == (Lexed { depth: 0, quoted: false, escaped: false }));
    }
}

proof fn lemma_same_front(s: Seq<char>, t: Seq<char>, n: int)
    requires
        0 <= n <= s.len(),
        n <= t.len(),
        forall|i: int| 0 <= i < n ==> s[i] == t[i],
    ensures
        lexed(s, n) == lexed(t, n),
    decreases n,
{
    if n > 0 {
        lemma_same_front(s, t, n - 1);
    }
}

proof fn lemma_same_back(s: Seq<char>, n: int, i: int)
    requires
        0 <= n <= s.len(),
        0 <= i <= s.len() - n,
        lexed(s, n) == (Lexed { depth: 0, quoted: false, escaped: false }),
    ensures
        lexed(s, n + i) == lexed(s.skip(n), i),
    decreases i,
{
    if i > 0 {
        lemma_same_back(s, n, i - 1);
        assert(s.skip(n)[i - 1] == s[n + i - 1]);
    }
}

proof fn lemma_cut_back(s: Seq<char>, c: char, n: int, i: int)
    requires
        0 <= n <= s.len(),
        0 <= i <= s.len() - n,
        lexed(s, n) == (Lexed { depth: 0, quoted: false, escaped: false }),
    ensures
        cut(s, c, n + i) == n + cut(s.skip(n), c, i),
        i <= cut(s.skip(n), c, i) <= s.len() - n,
    decreases s.len() - n - i,
{
    if i < s.len() - n {
        lemma_same_back(s, n, i);
        assert(s.skip(n)[i] == s[n + i]);
        lemma_cut_back(s, c, n, i + 1);
    }
}

proof fn lemma_parts_back(s: Seq<char>, c: char, n: int, i: int)
    requires
        0 <= n <= s.len(),
        0 <= i <= s.len() - n,
        lexed(s, n) == (Lexed { depth: 0, quoted: false, escaped: false }),
    ensures
        parts(s, c, n + i) == parts(s.skip(n), c, i),
    decreases s.len() - n - i,
{
    lemma_cut_back(s, c, n, i);
    let t = s.skip(n);
    let k = cut(t, c, i);
    if k < t.len() {
        lemma_parts_back(s, c, n, k + 1);
        assert(s.subrange(n + i, n + k) =~= t.subrange(i, k));
    } else {
        assert(s.skip(n + i) =~= t.skip(i));
    }
}

/// Whether `c` stands nowhere in `s` outside the strings and brackets of `s`.
pub open spec fn shields(s: Seq<char>, c: char) -> bool {
    forall|i: int|
        0 <= i < s.len() && #[trigger] s[i] == c ==> lexed(s, i).depth != 0 || lexed(s, i).quoted
}

proof fn lemma_cut_front(a: Seq<char>, c: char, b: Seq<char>, i: int)
    requires
        0 <= i <= a.len(),
        closes(a),
        shields(a, c),
    ensures
        cut(a + seq![c] + b, c, i) == a.len(),
    decreases a.len() - i,
{
    let s = a + seq![c] + b;
    lemma_same_front(s, a, i);
    if i < a.len() {
        assert(s[i] == a[i]);
        lemma_cut_front(a, c, b, i + 1);
    } else {
        assert(s[i] == c);
    }
}

proof fn lemma_cut_none(a: Seq<char>, c: char, i: int)
    requires
        0 <= i <= a.len(),
        shields(a, c),
    ensures
        cut(a, c, i) == a.len(),
    decreases a.len() - i,
{
    if i < a.len() {
        lemma_cut_none(a, c, i + 1);
        assert(a[i] == c ==> lexed(a, i).depth != 0 || lexed(a, i).quoted);
    }
}

/// A text comes apart where the separator stands in no string and no bracket, and
/// nowhere else.
pub proof fn law_parts(a: Seq<char>, c: char, b: Seq<char>)
    requires
        !is_mark(c),
        closes(a),
        shields(a, c),
    ensures
        parts(a, c, 0) == seq![a],
        parts(a + seq![c] + b, c, 0) == seq![a] + parts(b, c, 0),
{
    let s = a + seq![c] + b;
    let n = a.len() as int;
    lemma_cut_front(a, c, b, 0);
    lemma_cut_none(a, c, 0);
    assert(a.skip(0) =~= a);
    assert(s.subrange(0, n) =~= a);
    lemma_same_front(s, a, n);
    assert(s[n] == c);
    assert(lexed(s, n + 1) == stepped(lexed(s, n), c));
    lemma_parts_back(s, c, n + 1, 0);
    assert(s.skip(n + 1) =~= b);
}

/// A member is a name, a colon and a value, and neither is changed.
pub proof fn law_named_value(name: Seq<char>, value: Seq<char>)
    requires
        closes(name),
        shields(name, ':'),
    ensures
        named_value(name + seq![':'] + value) == (name, value),
        named_value(name) == (name, Seq::<char>::empty()),
{
    let m = name + seq![':'] + value;
    lemma_cut_front(name, ':', value, 0);
    lemma_cut_none(name, ':', 0);
    assert(m.take(name.len() as int) =~= name);
    assert(m.skip(name.len() as int + 1) =~= value);
}

/// The members of an object are those between its braces, each by itself and in order.
pub proof fn law_members(m: Seq<char>, rest: Seq<char>)
    requires
        closes(m),
        shields(m, ','),
        trim(m).len() > 0,
        trim(m + seq![','] + rest).len() > 0,
    ensures
        members(seq!['{'] + m + seq!['}']) == seq![named_value(m)],
        trim(rest).len() > 0 ==> members(seq!['{'] + m + seq![','] + rest + seq!['}']) == seq![
            named_value(m),
        ] + members(seq!['{'] + rest + seq!['}']),
{
    law_parts(m, ',', rest);
    let one = seq!['{'] + m + seq!['}'];
    assert(inner(one) =~= m);
    assert(members(one) =~= seq![named_value(m)]);
    let all = m + seq![','] + rest;
    let obj = seq!['{'] + m + seq![','] + rest + seq!['}'];
    assert(inner(obj) =~= all);
    let tail = seq!['{'] + rest + seq!['}'];
    assert(inner(tail) =~= rest);
    if trim(rest).len() > 0 {
        let ps = parts(rest, ',', 0);
        assert(parts(all, ',', 0).len() == ps.len() + 1);
        assert(members(obj) =~= seq![named_value(m)] + members(tail));
    }
}

} // verus!
