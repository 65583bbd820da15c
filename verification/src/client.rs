//! What the client makes of the daemon's answers: statistics, the event stream, and
//! what is said of a file that is not known.

use vstd::prelude::*;
use vstd::string::*;

use crate::json;
use crate::json::{is_json, string_of_json, text_view};
use crate::json_object;
use crate::json_object::{member_views, members_of, ObjectMember};
use crate::number;
use crate::number::integer_text;
use crate::target::{Lookup, LookupView};
use crate::text;
use crate::text::{add_line, chars_of, find_text, has_prefix, joined, lines_of, same_text};
use crate::text::{string_between, strip_front, trimmed, views};
use crate::types::{AuditEvent, FileRow, OutputRecord};

verus! {

// ---------------------------------------------------------------- answers

/// The answer to `GET /stats`.
#[derive(Debug, Clone)]
pub struct HttpStats {
    /// Counts by the word of a status.
    pub counts_per_status: Vec<(String, i64)>,
    pub queue_depth: i64,
    pub last_error: Option<String>,
    pub in_flight: i64,
    pub oldest_pending_age_secs: Option<i64>,
}

/// The count under a word: that of the first entry with it, or zero.
pub open spec fn count_under(counts: Seq<(String, i64)>, status: Seq<char>) -> i64
    decreases counts.len(),
{
    if counts.len() == 0 {
        0
    } else if counts[0].0@ == status {
        counts[0].1
    } else {
        count_under(counts.skip(1), status)
    }
}

impl HttpStats {
    /// The count of a status, or zero where none is given.
    pub fn count(&self, status: &str) -> (r: i64)
        ensures
            r == count_under(self.counts_per_status@, status@),
    {
        let ghost all = self.counts_per_status@;
        let mut i: usize = 0;
        assert(all.skip(0) =~= all);
        while i < self.counts_per_status.len()
            invariant
                i <= self.counts_per_status@.len(),
                all == self.counts_per_status@,
                count_under(all.skip(i as int), status@) == count_under(all, status@),
            decreases self.counts_per_status@.len() - i,
        {
            assert(all.skip(i as int)[0] == all[i as int]);
            if same_text(self.counts_per_status[i].0.as_str(), status) {
                return self.counts_per_status[i].1;
            }
            assert(all.skip(i as int).skip(1) =~= all.skip(i + 1));
            i = i + 1;
        }
        0
    }
}

/// The answer to `GET /files/:id`.
#[derive(Debug, Clone)]
pub struct HttpFileDetail {
    pub file: FileRow,
    pub outputs: Vec<OutputRecord>,
    pub events: Vec<AuditEvent>,
}

/// The address of an endpoint.
pub fn endpoint(bind_addr: &str, path: &str) -> (r: String)
    ensures
        r@ == "http://"@ + bind_addr@ + path@,
{
    let mut s = String::from_str("http://");
    s.append(bind_addr);
    s.append(path);
    s
}

/// The other path to ask for, where the canonical one is written differently.
pub fn second_path_text(path: &str, canonical: Option<String>) -> (r: Option<String>)
    ensures
        match (canonical, r) {
            (Some(c), Some(p)) => p@ == c@ && c@ != path@,
            (Some(c), None) => c@ == path@,
            (None, p) => p is None,
        },
{
    match canonical {
        Some(c) => if same_text(c.as_str(), path) {
            None
        } else {
            Some(c)
        },
        None => None,
    }
}

/// What is said where the daemon knows no such file.
pub fn unknown_file(target: &str, lookup: &Lookup) -> (r: String)
    ensures
        r@ == match lookup@ {
            LookupView::ById(id) => "no file found with ID "@ + number::decimal(id),
            LookupView::ByPath(_) => "no file found for '"@ + target@
                + "'. Use `kb list` to see tracked files, or provide a numeric ID."@,
        },
{
    match lookup {
        Lookup::ById(id) => {
            let mut s = String::from_str("no file found with ID ");
            s.append(integer_text(*id).as_str());
            s
        },
        Lookup::ByPath(_) => {
            let mut s = String::from_str("no file found for '");
            s.append(target);
            s.append("'. Use `kb list` to see tracked files, or provide a numeric ID.");
            s
        },
    }
}

// ---------------------------------------------------------------- blocks

/// Whether the first empty line of `s` begins at `p`.
pub open spec fn first_break(s: Seq<char>, p: int) -> bool {
    &&& text::occurs_at(s, "\n\n"@, p)
    &&& forall|q: int| 0 <= q < p ==> !text::occurs_at(s, "\n\n"@, q)
}

/// The place of the first empty line of `s`, or `-1`.
pub open spec fn break_in(s: Seq<char>) -> int {
    if text::contains(s, "\n\n"@) {
        choose|p: int| first_break(s, p)
    } else {
        -1
    }
}

proof fn lemma_break(s: Seq<char>)
    ensures
        text::contains(s, "\n\n"@) ==> first_break(s, break_in(s)) && 0 <= break_in(s) <= s.len() - 2,
        break_in(s) >= 0 ==> text::contains(s, "\n\n"@),
{
    reveal_strlit("\n\n");
    if text::contains(s, "\n\n"@) {
        let p = choose|p: int| text::occurs_at(s, "\n\n"@, p);
        lemma_first_break(s, p);
        assert(exists|p: int| first_break(s, p));
    }
}

proof fn lemma_first_break(s: Seq<char>, p: int)
    requires
        text::occurs_at(s, "\n\n"@, p),
    ensures
        exists|q: int| first_break(s, q),
    decreases p,
{
    if forall|q: int| 0 <= q < p ==> !text::occurs_at(s, "\n\n"@, q) {
        assert(first_break(s, p));
    } else {
        let q = choose|q: int| 0 <= q < p && text::occurs_at(s, "\n\n"@, q);
        lemma_first_break(s, q);
    }
}

/// The complete blocks of a stream: what stands before each empty line.
pub open spec fn blocks(s: Seq<char>) -> Seq<Seq<char>>
    decreases s.len(),
    when true
    via blocks_decrease
{
    if text::contains(s, "\n\n"@) {
        seq![s.take(break_in(s))] + blocks(s.skip(break_in(s) + 2))
    } else {
        seq![]
    }
}

#[via_fn]
proof fn blocks_decrease(s: Seq<char>) {
    lemma_break(s);
}

/// What of a stream is not yet complete.
pub open spec fn unfinished(s: Seq<char>) -> Seq<char>
    decreases s.len(),
    when true
    via unfinished_decrease
{
    if text::contains(s, "\n\n"@) {
        unfinished(s.skip(break_in(s) + 2))
    } else {
        s
    }
}

#[via_fn]
proof fn unfinished_decrease(s: Seq<char>) {
    lemma_break(s);
}

/// Takes a piece of the stream in: the blocks that it completes come out, and the rest
/// waits for the next piece.
pub fn take_blocks(buffer: &mut String, piece: &str) -> (r: Vec<String>)
    ensures
        views(r@) == blocks(old(buffer)@ + piece@),
        final(buffer)@ == unfinished(old(buffer)@ + piece@),
{
    buffer.append(piece);
    let ghost all = buffer@;
    let v = chars_of(buffer.as_str());
    let pat = chars_of("\n\n");
    proof {
        reveal_strlit("\n\n");
    }
    let mut out: Vec<String> = Vec::new();
    let mut from: usize = 0;
    assert(all.skip(0) =~= all);
    assert(views(out@) + blocks(all) =~= blocks(all));
    loop
        invariant
            v@ == all,
            pat@ == "\n\n"@,
            pat@.len() == 2,
            from <= v@.len(),
            views(out@) + blocks(all.skip(from as int)) == blocks(all),
            unfinished(all.skip(from as int)) == unfinished(all),
        ensures
            from <= v@.len(),
            views(out@) == blocks(all),
            all.skip(from as int) == unfinished(all),
        decreases v@.len() - from,
    {
        let ghost left = all.skip(from as int);
        match find_text(&v, &pat, from) {
            Some(at) => {
                proof {
                    lemma_break(left);
                    lemma_break_at(all, from as int, at as int);
                }
                let ghost before = views(out@);
                add_line(&mut out, string_between(&v, from, at));
                assert(all.subrange(from as int, at as int) =~= left.take(break_in(left)));
                assert(left.skip(break_in(left) + 2) =~= all.skip(at + 2));
                assert(views(out@) + blocks(all.skip(at + 2)) =~= before + blocks(left));
                let n: usize = v.len();
                assert(at + 2 <= n);
                from = at + 2;
            },
            None => {
                proof {
                    lemma_no_break(all, from as int);
                }
                assert(views(out@) =~= blocks(all));
                break;
            },
        }
    }
    *buffer = string_between(&v, from, v.len());
    assert(v@.subrange(from as int, v@.len() as int) =~= all.skip(from as int));
    out
}

proof fn lemma_break_at(all: Seq<char>, from: int, at: int)
    requires
        0 <= from <= at,
        text::occurs_at(all, "\n\n"@, at),
        forall|j: int| from <= j < at ==> !text::occurs_at(all, "\n\n"@, j),
    ensures
        text::contains(all.skip(from), "\n\n"@),
        break_in(all.skip(from)) == at - from,
{
    reveal_strlit("\n\n");
    let left = all.skip(from);
    let pat = "\n\n"@;
    assert(left.subrange(at - from, at - from + 2) =~= all.subrange(at, at + 2));
    assert(text::occurs_at(left, pat, at - from));
    lemma_break(left);
    let p = break_in(left);
    assert(left.subrange(p, p + 2) =~= all.subrange(from + p, from + p + 2));
    assert(text::occurs_at(all, pat, from + p));
}

proof fn lemma_no_break(all: Seq<char>, from: int)
    requires
        0 <= from <= all.len(),
        forall|j: int| from <= j ==> !text::occurs_at(all, "\n\n"@, j),
    ensures
        !text::contains(all.skip(from), "\n\n"@),
{
    reveal_strlit("\n\n");
    let left = all.skip(from);
    if text::contains(left, "\n\n"@) {
        let p = choose|p: int| text::occurs_at(left, "\n\n"@, p);
        assert(left.subrange(p, p + 2) =~= all.subrange(from + p, from + p + 2));
        assert(text::occurs_at(all, "\n\n"@, from + p));
    }
}

/// However the stream is cut into pieces, the same blocks come out of it: none is
/// lost, none is cut in two.
pub proof fn law_pieces_do_not_matter(a: Seq<char>, b: Seq<char>)
    ensures
        blocks(a + b) == blocks(a) + blocks(unfinished(a) + b),
        unfinished(a + b) == unfinished(unfinished(a) + b),
    decreases a.len(),
{
    reveal_strlit("\n\n");
    if text::contains(a, "\n\n"@) {
        lemma_break(a);
        let p = break_in(a);
        assert((a + b).subrange(p, p + 2) =~= a.subrange(p, p + 2));
        assert(text::occurs_at(a + b, "\n\n"@, p));
        assert forall|j: int| 0 <= j < p implies !text::occurs_at(a + b, "\n\n"@, j) by {
            assert((a + b).subrange(j, j + 2) =~= a.subrange(j, j + 2));
            assert(!text::occurs_at(a, "\n\n"@, j));
        }
        assert((a + b).skip(0) =~= a + b);
        lemma_break_at(a + b, 0, p);
        assert((a + b).take(p) =~= a.take(p));
        assert((a + b).skip(p + 2) =~= a.skip(p + 2) + b);
        law_pieces_do_not_matter(a.skip(p + 2), b);
        assert(seq![a.take(p)] + (blocks(a.skip(p + 2)) + blocks(unfinished(a) + b)) =~= blocks(a)
            + blocks(unfinished(a) + b));
    } else {
        assert(blocks(a) + blocks(a + b) =~= blocks(a + b));
    }
}

// ---------------------------------------------------------------- events

/// The data of a block: what follows `data:` in its last line that begins so, trimmed.
pub open spec fn data_of(ls: Seq<Seq<char>>) -> Option<Seq<char>>
    decreases ls.len(),
{
    if ls.len() == 0 {
        None
    } else if text::starts_with(ls.last(), "data:"@) {
        Some(text::trim(ls.last().skip(5)))
    } else {
        data_of(ls.drop_last())
    }
}

/// The data of a block, where there is any.
pub open spec fn block_data(block: Seq<char>) -> Option<Seq<char>> {
    match data_of(text::lines(block)) {
        Some(d) => if d.len() > 0 {
            Some(d)
        } else {
            None
        },
        None => None,
    }
}

/// The data of a block, where there is any. Comments and other fields are passed over.
pub fn sse_data(block: &str) -> (r: Option<String>)
    ensures
        text_view(r) == block_data(block@),
{
    let ls = lines_of(block);
    let ghost all = text::lines(block@);
    let mut data: Option<String> = None;
    let mut i: usize = 0;
    assert(all.take(0) =~= Seq::<Seq<char>>::empty());
    proof {
        reveal_strlit("data:");
        reveal_strlit(":");
    }
    while i < ls.len()
        invariant
            i <= ls@.len(),
            views(ls@) == all,
            "data:"@.len() == 5,
            "data:"@[0] == 'd',
            ":"@.len() == 1,
            ":"@[0] == ':',
            text_view(data) == data_of(all.take(i as int)),
        decreases ls@.len() - i,
    {
        let ghost next = all.take(i + 1);
        assert(next.drop_last() =~= all.take(i as int));
        assert(next.last() == views(ls@)[i as int]);
        let l = ls[i].as_str();
        if has_prefix(l, ":") {
            assert(!text::starts_with(l@, "data:"@)) by {
                if text::starts_with(l@, "data:"@) {
                    assert(l@.take(5)[0] == l@[0]);
                    assert(l@.take(1)[0] == l@[0]);
                    assert(l@[0] == 'd');
                }
            }
        } else {
            if let Some(value) = strip_front(l, "data:") {
                data = Some(String::from_str(trimmed(value)));
            }
        }
        i = i + 1;
    }
    assert(views(ls@).len() == ls@.len());
    assert(all.take(i as int) =~= all);
    match data {
        Some(d) => if d.as_str().unicode_len() > 0 {
            Some(d)
        } else {
            None
        },
        None => None,
    }
}

/// The values of an event in the order of its members.
pub type Row = (i64, i64, String, String, Option<i64>, String, Option<String>);

/// The values of an event in the order of its members, over texts and integers.
pub type RowView = (
    int,
    int,
    Seq<char>,
    Seq<char>,
    Option<int>,
    Seq<char>,
    Option<Seq<char>>,
);

/// The values of an event, over texts and integers.
pub open spec fn row_view(r: Row) -> RowView {
    (
        r.0 as int,
        r.1 as int,
        r.2@,
        r.3@,
        match r.4 {
            Some(n) => Some(n as int),
            None => None,
        },
        r.5@,
        text_view(r.6),
    )
}

/// The values of an event that a JSON array holds: none where it holds others.
pub uninterp spec fn json_row(text: Seq<char>) -> Option<(int, int, Seq<char>, Seq<char>, Option<int>, Seq<char>, Option<Seq<char>>)>;

/// `serde_json::from_str` to a tuple of the values of an event: from an array of seven
/// elements of these types, of which the fifth and the seventh may be null. It depends
/// on the text alone.
#[verifier::external_body]
fn row_of_json(text: &str) -> (r: Option<Row>)
    ensures
        json_row(text@) == match r {
            Some(v) => Some(row_view(v)),
            None => None,
        },
{
    serde_json::from_str(text).ok()
}

/// The event that the values of a row make.
pub fn event_of_row(v: Row) -> (e: AuditEvent)
    ensures
        row_view((e.id, e.ts, e.level, e.kind, e.file_id, e.message, e.detail)) == row_view(v),
{
    AuditEvent {
        id: v.0,
        ts: v.1,
        level: v.2,
        kind: v.3,
        file_id: v.4,
        message: v.5,
        detail: v.6,
    }
}

/// The values of the members with a name, in their order.
pub open spec fn values_named(ms: Seq<(Seq<char>, Seq<char>)>, name: Seq<char>) -> Seq<Seq<char>>
    decreases ms.len(),
{
    if ms.len() == 0 {
        Seq::empty()
    } else {
        let front = values_named(ms.drop_last(), name);
        if ms.last().0 == name {
            front.push(ms.last().1)
        } else {
            front
        }
    }
}

/// The value of the member with a name: null where there is none and it may be missing.
/// One that must be there and is not has none, nor has a name that stands twice.
pub open spec fn value_named(
    ms: Seq<(Seq<char>, Seq<char>)>,
    name: Seq<char>,
    optional: bool,
) -> Option<Seq<char>> {
    let vs = values_named(ms, name);
    if vs.len() == 1 {
        Some(vs[0])
    } else if vs.len() == 0 && optional {
        Some("null"@)
    } else {
        None
    }
}

fn value_of(ms: &Vec<ObjectMember>, name: &str, optional: bool) -> (r: Option<String>)
    ensures
        text_view(r) == value_named(member_views(ms@), name@, optional),
{
    let ghost all = member_views(ms@);
    let mut found: Vec<String> = Vec::new();
    let mut i: usize = 0;
    assert(views(found@) =~= values_named(all.take(0), name@));
    while i < ms.len()
        invariant
            i <= ms@.len(),
            all == member_views(ms@),
            views(found@) == values_named(all.take(i as int), name@),
        decreases ms@.len() - i,
    {
        let ghost before = views(found@);
        let ghost next = all.take(i + 1);
        assert(next.drop_last() =~= all.take(i as int));
        assert(next.last() == ms@[i as int]@);
        if same_text(ms[i].name.as_str(), name) {
            found.push(ms[i].value.clone());
            assert(views(found@) =~= before.push(ms@[i as int].value@));
        }
        i = i + 1;
    }
    assert(all.take(i as int) =~= all);
    assert(views(found@).len() == found@.len());
    if found.len() == 1 {
        let v = found[0].clone();
        assert(v@ == views(found@)[0]);
        Some(v)
    } else if found.len() == 0 && optional {
        Some(String::from_str("null"))
    } else {
        None
    }
}

/// The members of an event in their order, and whether each may be missing.
pub open spec fn event_slots() -> Seq<(Seq<char>, bool)> {
    seq![
        ("id"@, false),
        ("ts"@, false),
        ("level"@, false),
        ("kind"@, false),
        ("file_id"@, true),
        ("message"@, false),
        ("detail"@, true),
    ]
}

/// The values of the first `n` members of an event; none where one of them has none.
pub open spec fn slot_values(ms: Seq<(Seq<char>, Seq<char>)>, n: nat) -> Option<Seq<Seq<char>>>
    decreases n,
{
    if n == 0 {
        Some(Seq::empty())
    } else {
        let slot = event_slots()[n - 1];
        match (slot_values(ms, (n - 1) as nat), value_named(ms, slot.0, slot.1)) {
            (Some(vs), Some(v)) => Some(vs.push(v)),
            _ => None,
        }
    }
}

/// The array of the values of an event whose members are given: none where one is
/// missing or stands twice.
pub open spec fn row_text(ms: Seq<(Seq<char>, Seq<char>)>) -> Option<Seq<char>> {
    match slot_values(ms, event_slots().len()) {
        Some(vs) => Some("["@ + text::join(vs, ","@) + "]"@),
        None => None,
    }
}

/// The array of the values of an event whose members are given.
pub fn row_text_of(ms: &Vec<ObjectMember>) -> (r: Option<String>)
    ensures
        text_view(r) == row_text(member_views(ms@)),
{
    let slots: Vec<(&'static str, bool)> = vec![
        ("id", false),
        ("ts", false),
        ("level", false),
        ("kind", false),
        ("file_id", true),
        ("message", false),
        ("detail", true),
    ];
    let ghost all = member_views(ms@);
    let mut vs: Vec<String> = Vec::new();
    let mut i: usize = 0;
    assert(views(vs@) =~= Seq::<Seq<char>>::empty());
    while i < slots.len()
        invariant
            i <= slots@.len() == event_slots().len(),
            all == member_views(ms@),
            forall|j: int|
                0 <= j < slots@.len() ==> (#[trigger] slots@[j]).0@ == event_slots()[j].0
                    && slots@[j].1 == event_slots()[j].1,
            slot_values(all, i as nat) == Some(views(vs@)),
        decreases slots@.len() - i,
    {
        let ghost before = views(vs@);
        let slot = slots[i];
        assert(slot_values(all, (i + 1) as nat) == match (
            slot_values(all, i as nat),
            value_named(all, slot.0@, slot.1),
        ) {
            (Some(vs), Some(v)) => Some(vs.push(v)),
            _ => None,
        });
        match value_of(ms, slot.0, slot.1) {
            Some(v) => {
                vs.push(v);
                assert(views(vs@) =~= before.push(v@));
            },
            None => {
                proof {
                    lemma_slot_missing(all, (i + 1) as nat, event_slots().len());
                }
                return None;
            },
        }
        i = i + 1;
    }
    let mut s = String::from_str("[");
    s.append(joined(&vs, ",").as_str());
    s.append("]");
    Some(s)
}

proof fn lemma_slot_missing(ms: Seq<(Seq<char>, Seq<char>)>, n: nat, m: nat)
    requires
        n <= m,
        slot_values(ms, n) is None,
    ensures
        slot_values(ms, m) is None,
    decreases m,
{
    if n < m {
        lemma_slot_missing(ms, n, (m - 1) as nat);
    }
}

/// Members with the names that their texts spell; none where one spells no name.
pub open spec fn spelled(ms: Seq<(Seq<char>, Seq<char>)>) -> Option<Seq<(Seq<char>, Seq<char>)>>
    decreases ms.len(),
{
    if ms.len() == 0 {
        Some(Seq::empty())
    } else {
        match (spelled(ms.drop_last()), json::json_string(ms.last().0)) {
            (Some(front), Some(name)) => Some(front.push((name, ms.last().1))),
            _ => None,
        }
    }
}

proof fn lemma_spelled_none(ms: Seq<(Seq<char>, Seq<char>)>, n: int)
    requires
        0 <= n <= ms.len(),
        spelled(ms.take(n)) is None,
    ensures
        spelled(ms) is None,
    decreases ms.len() - n,
{
    if n < ms.len() {
        assert(ms.take(n + 1).drop_last() =~= ms.take(n));
        lemma_spelled_none(ms, n + 1);
    } else {
        assert(ms.take(n) =~= ms);
    }
}

fn spelled_members(ms: &Vec<ObjectMember>) -> (r: Option<Vec<ObjectMember>>)
    ensures
        match r {
            Some(v) => spelled(member_views(ms@)) == Some(member_views(v@)),
            None => spelled(member_views(ms@)) is None,
        },
{
    let ghost all = member_views(ms@);
    let mut out: Vec<ObjectMember> = Vec::new();
    let mut i: usize = 0;
    assert(all.take(0) =~= Seq::<(Seq<char>, Seq<char>)>::empty());
    assert(member_views(out@) =~= Seq::<(Seq<char>, Seq<char>)>::empty());
    while i < ms.len()
        invariant
            i <= ms@.len(),
            all == member_views(ms@),
            spelled(all.take(i as int)) == Some(member_views(out@)),
        decreases ms@.len() - i,
    {
        let ghost before = member_views(out@);
        let ghost next = all.take(i + 1);
        assert(next.drop_last() =~= all.take(i as int));
        assert(next.last() == ms@[i as int]@);
        match string_of_json(ms[i].name.as_str()) {
            Some(name) => {
                let m = ObjectMember { name, value: ms[i].value.clone() };
                out.push(m);
                assert(member_views(out@) =~= before.push(m@));
            },
            None => {
                proof {
                    lemma_spelled_none(all, i + 1);
                }
                return None;
            },
        }
        i = i + 1;
    }
    assert(all.take(i as int) =~= all);
    Some(out)
}

/// The values of the event that a JSON text holds: as an array, or as an object in
/// which each of its members stands once and other members do not matter.
pub open spec fn event_in(d: Seq<char>) -> Option<RowView> {
    if d.len() > 0 && d[0] == '{' {
        match spelled(json_object::members(d)) {
            Some(ms) => match row_text(ms) {
                Some(t) => if json::json_syntax(d) {
                    json_row(t)
                } else {
                    None
                },
                None => None,
            },
            None => None,
        }
    } else {
        json_row(d)
    }
}

/// The values of an event, where there is one.
pub open spec fn event_view(r: Option<AuditEvent>) -> Option<RowView> {
    match r {
        Some(e) => Some(
            row_view((e.id, e.ts, e.level, e.kind, e.file_id, e.message, e.detail)),
        ),
        None => None,
    }
}

/// The event in a block: none where there is no data, or the data are no event.
pub fn parse_sse_block(block: &str) -> (r: Option<AuditEvent>)
    ensures
        event_view(r) == match block_data(block@) {
            Some(d) => event_in(d),
            None => None,
        },
{
    let data = sse_data(block)?;
    let d = data.as_str();
    proof {
        reveal_strlit("{");
        if d@.len() > 0 {
            assert(d@.take(1)[0] == d@[0]);
            assert(d@[0] == '{' ==> d@.take(1) =~= "{"@);
        }
    }
    let row = if has_prefix(d, "{") {
        if !is_json(d) {
            return None;
        }
        let ms = spelled_members(&members_of(d))?;
        let t = row_text_of(&ms)?;
        row_of_json(t.as_str())
    } else {
        row_of_json(d)
    };
    match row {
        Some(v) => Some(event_of_row(v)),
        None => None,
    }
}

// ---------------------------------------------------------------- laws

proof fn lemma_values_add(
    a: Seq<(Seq<char>, Seq<char>)>,
    b: Seq<(Seq<char>, Seq<char>)>,
    name: Seq<char>,
)
    ensures
        values_named(a + b, name) == values_named(a, name) + values_named(b, name),
    decreases b.len(),
{
    if b.len() == 0 {
        assert(a + b =~= a);
        assert(values_named(a, name) + values_named(b, name) =~= values_named(a, name));
    } else {
        lemma_values_add(a, b.drop_last(), name);
        assert((a + b).drop_last() =~= a + b.drop_last());
        assert(values_named(a + b, name) =~= values_named(a, name) + values_named(b, name));
    }
}

/// Whether a name is that of a member of an event.
pub open spec fn is_slot(name: Seq<char>) -> bool {
    exists|i: int| 0 <= i < event_slots().len() && (#[trigger] event_slots()[i]).0 == name
}

/// A member that is none of an event does not matter, wherever it stands.
pub proof fn law_other_members_do_not_matter(
    a: Seq<(Seq<char>, Seq<char>)>,
    m: (Seq<char>, Seq<char>),
    b: Seq<(Seq<char>, Seq<char>)>,
)
    requires
        !is_slot(m.0),
    ensures
        row_text(a + seq![m] + b) == row_text(a + b),
{
    lemma_other_member(a, m, b, event_slots().len());
}

proof fn lemma_other_member(
    a: Seq<(Seq<char>, Seq<char>)>,
    m: (Seq<char>, Seq<char>),
    b: Seq<(Seq<char>, Seq<char>)>,
    n: nat,
)
    requires
        !is_slot(m.0),
        n <= event_slots().len(),
    ensures
        slot_values(a + seq![m] + b, n) == slot_values(a + b, n),
    decreases n,
{
    if n > 0 {
        lemma_other_member(a, m, b, (n - 1) as nat);
        let name = event_slots()[n - 1].0;
        lemma_values_add(a + seq![m], b, name);
        lemma_values_add(a, seq![m], name);
        lemma_values_add(a, b, name);
        assert(seq![m].drop_last() =~= Seq::<(Seq<char>, Seq<char>)>::empty());
        assert(values_named(seq![m], name) =~= Seq::<Seq<char>>::empty()) by {
            reveal_with_fuel(values_named, 2);
        }
        assert(values_named(a, name) + values_named(seq![m], name) =~= values_named(a, name));
    }
}

/// An object in which a member of an event stands twice is no event.
pub proof fn law_repeated_member_is_no_event(
    d: Seq<char>,
    ms: Seq<(Seq<char>, Seq<char>)>,
    i: int,
)
    requires
        d.len() > 0,
        d[0] == '{',
        spelled(json_object::members(d)) == Some(ms),
        0 <= i < event_slots().len(),
        values_named(ms, event_slots()[i].0).len() > 1,
    ensures
        event_in(d) is None,
{
    assert(slot_values(ms, (i + 1) as nat) is None);
    lemma_slot_missing(ms, (i + 1) as nat, event_slots().len());
}

} // verus!
