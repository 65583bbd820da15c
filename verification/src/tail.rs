//! Following the audit log: which events are shown, in what order and how.

use vstd::prelude::*;
use vstd::string::*;

use crate::display;
use crate::display::local_time;
use crate::json::text_view;
use crate::number;
use crate::number::integer_text;
use crate::text;
use crate::text::{lowercase, padded_right, same_text, trimmed, uppercase};
use crate::types::AuditEvent;

verus! {

/// What `kb tail` is asked for.
#[derive(Debug, Clone)]
pub struct TailArgs {
    /// The least level that is shown.
    pub level: String,
    /// The one kind that is shown.
    pub kind: Option<String>,
}

/// How many events of the past are shown first.
pub const BACKFILL_COUNT: i64 = 20;

/// How many events are looked at each time.
pub const POLL_COUNT: i64 = 1000;

/// How often the log is looked at, in milliseconds.
pub const POLL_INTERVAL_MILLIS: u64 = 500;

/// How long to wait for a database that is not there yet, in seconds.
pub const DB_RETRY_SECS: u64 = 2;

// ---------------------------------------------------------------- levels

/// The rank of a level in lower case.
pub open spec fn rank(level: Seq<char>) -> Option<int> {
    if level == "info"@ {
        Some(0)
    } else if level == "warn"@ {
        Some(1)
    } else if level == "error"@ {
        Some(2)
    } else {
        None
    }
}

/// An optional rank as an integer.
pub open spec fn rank_view(r: Option<usize>) -> Option<int> {
    match r {
        Some(n) => Some(n as int),
        None => None,
    }
}

/// The rank of a level in lower case, from info over warn to error.
pub fn level_index(level: &str) -> (r: Option<usize>)
    ensures
        rank_view(r) == rank(level@),
{
    if same_text(level, "info") {
        Some(0)
    } else if same_text(level, "warn") {
        Some(1)
    } else if same_text(level, "error") {
        Some(2)
    } else {
        None
    }
}

/// The least rank that is asked for, or what is said of a level that is none.
pub fn min_level(level: &str) -> (r: Result<usize, String>)
    ensures
        match r {
            Ok(n) => rank(text::unicode_lower(level@)) == Some(n as int),
            Err(e) => rank(text::unicode_lower(level@)) is None && e@ == "unknown level '"@ + level@
                + "'. Valid values: info, warn, error"@,
        },
{
    match level_index(lowercase(level).as_str()) {
        Some(n) => Ok(n),
        None => {
            let mut s = String::from_str("unknown level '");
            s.append(level);
            s.append("'. Valid values: info, warn, error");
            Err(s)
        },
    }
}

/// Whether an event with a level, in lower case, is shown. One with a level that is
/// not known always is.
pub open spec fn passes(lower: Seq<char>, min: int) -> bool {
    match rank(lower) {
        Some(n) => n >= min,
        None => true,
    }
}

/// Whether an event with a level, in lower case, is shown.
pub fn passes_lowered(lower: &str, min_idx: usize) -> (b: bool)
    ensures
        b == passes(lower@, min_idx as int),
{
    match level_index(lower) {
        Some(n) => n >= min_idx,
        None => true,
    }
}

/// Whether an event with a level is shown.
pub fn passes_level_filter(event_level: &str, min_idx: usize) -> (b: bool)
    ensures
        b == passes(text::unicode_lower(event_level@), min_idx as int),
{
    passes_lowered(lowercase(event_level).as_str(), min_idx)
}

// ---------------------------------------------------------------- the cursor

/// The ids of events.
pub open spec fn ids_of(es: Seq<AuditEvent>) -> Seq<i64> {
    Seq::new(es.len(), |i: int| es[i].id)
}

/// The largest of some ids, or `from` where it is larger.
pub open spec fn is_last(ids: Seq<i64>, from: int, r: int) -> bool {
    &&& r >= from
    &&& forall|i: int| 0 <= i < ids.len() ==> #[trigger] ids[i] <= r
    &&& r == from || exists|i: int| 0 <= i < ids.len() && #[trigger] ids[i] == r
}

/// The cursor after some events: the largest id among them, or the cursor before.
pub fn cursor_after(events: &Vec<AuditEvent>, from: i64) -> (r: i64)
    ensures
        is_last(ids_of(events@), from as int, r as int),
{
    let ghost ids = ids_of(events@);
    let mut r: i64 = from;
    let mut i: usize = 0;
    while i < events.len()
        invariant
            i <= events@.len(),
            ids == ids_of(events@),
            r >= from,
            forall|j: int| 0 <= j < i ==> #[trigger] ids[j] <= r,
            r == from || exists|j: int| 0 <= j < i && #[trigger] ids[j] == r,
        decreases events@.len() - i,
    {
        if events[i].id > r {
            r = events[i].id;
            assert(ids[i as int] == r);
        }
        i = i + 1;
    }
    r
}

/// Whether the event with index `a` comes before the one with index `b`: by its id, and
/// of two with one id by its place.
pub open spec fn comes_before(ids: Seq<i64>, a: int, b: int) -> bool {
    ids[a] < ids[b] || (ids[a] == ids[b] && a < b)
}

/// Whether `order` names the events above `last`, each once, in ascending order of their
/// ids.
pub open spec fn is_new_order(ids: Seq<i64>, last: int, order: Seq<usize>) -> bool {
    is_order_of(ids, ids.len() as int, last, order)
}

/// Whether `order` names those of the first `n` events that are above `last`, each once,
/// in ascending order of their ids.
pub open spec fn is_order_of(ids: Seq<i64>, n: int, last: int, order: Seq<usize>) -> bool {
    &&& forall|k: int|
        0 <= k < order.len() ==> 0 <= (#[trigger] order[k]) < n && ids[order[k] as int] > last
    &&& forall|k: int, l: int|
        #![trigger order[k], order[l]]
        0 <= k < l < order.len() ==> comes_before(ids, order[k] as int, order[l] as int)
    &&& forall|i: int|
        0 <= i < n && #[trigger] ids[i] > last ==> exists|k: int|
            0 <= k < order.len() && #[trigger] order[k] == i
}

fn place_in(order: &mut Vec<usize>, events: &Vec<AuditEvent>, i: usize, last: i64)
    requires
        i < events@.len(),
        is_order_of(ids_of(events@), i as int, last as int, old(order)@),
        events@[i as int].id > last,
    ensures
        is_order_of(ids_of(events@), i + 1, last as int, final(order)@),
{
    let ghost ids = ids_of(events@);
    let ghost before = order@;
    let id: i64 = events[i].id;
    assert(ids[i as int] == id);
    let mut p: usize = order.len();
    while p > 0 && events[order[p - 1]].id > id
        invariant
            p <= order@.len(),
            order@ == before,
            i < events@.len(),
            ids == ids_of(events@),
            ids[i as int] == id,
            is_order_of(ids, i as int, last as int, before),
            forall|k: int| p <= k < before.len() ==> ids[(#[trigger] before[k]) as int] > id,
        decreases p,
    {
        assert(ids[before[p - 1] as int] == events@[before[p - 1] as int].id);
        p = p - 1;
    }
    order.insert(p, i);
    proof {
        let after = order@;
        assert(after =~= before.insert(p as int, i));
        assert forall|k: int| 0 <= k < p implies ids[(#[trigger] before[k]) as int] <= id by {
            assert(ids[before[p - 1] as int] == events@[before[p - 1] as int].id);
            if k < p - 1 {
                assert(comes_before(ids, before[k] as int, before[p - 1] as int));
            }
        }
        assert forall|k: int| 0 <= k < after.len() implies 0 <= (#[trigger] after[k]) < i + 1
            && ids[after[k] as int] > last by {
            if k < p {
                assert(after[k] == before[k]);
            } else if k > p {
                assert(after[k] == before[k - 1]);
            }
        }
        assert forall|k: int, l: int|
            #![trigger after[k], after[l]]
            0 <= k < l < after.len() implies comes_before(ids, after[k] as int, after[l] as int) by {
            let bk = if k < p {
                k
            } else {
                k - 1
            };
            let bl = if l < p {
                l
            } else {
                l - 1
            };
            if k != p {
                assert(after[k] == before[bk]);
            }
            if l != p {
                assert(after[l] == before[bl]);
            }
            if k != p && l != p {
                assert(comes_before(ids, before[bk] as int, before[bl] as int));
            }
        }
        assert forall|j: int| 0 <= j < i + 1 && #[trigger] ids[j] > last implies exists|k: int|
            0 <= k < after.len() && #[trigger] after[k] == j by {
            if j == i {
                assert(after[p as int] == j);
            } else {
                let k = choose|k: int| 0 <= k < before.len() && #[trigger] before[k] == j;
                if k < p {
                    assert(after[k] == j);
                } else {
                    assert(after[k + 1] == j);
                }
            }
        }
    }
}

/// The events that were not seen yet, in ascending order of their ids, and the cursor
/// after them. Whether an event is shown or not, the cursor passes it, so none comes
/// twice and none is missed.
pub fn new_events(events: &Vec<AuditEvent>, last: i64) -> (r: (Vec<usize>, i64))
    ensures
        is_new_order(ids_of(events@), last as int, r.0@),
        is_last(ids_of(events@), last as int, r.1 as int),
{
    let ghost ids = ids_of(events@);
    let mut order: Vec<usize> = Vec::new();
    let mut i: usize = 0;
    while i < events.len()
        invariant
            i <= events@.len(),
            ids == ids_of(events@),
            is_order_of(ids, i as int, last as int, order@),
        decreases events@.len() - i,
    {
        assert(ids[i as int] == events@[i as int].id);
        if events[i].id > last {
            place_in(&mut order, events, i, last);
        }
        i = i + 1;
    }
    let at: i64 = cursor_after(events, last);
    (order, at)
}

/// Of two looks at the log, the second, from the cursor of the first, shows none of
/// the events that the first showed.
pub proof fn law_no_event_twice(
    ids: Seq<i64>,
    last: int,
    order: Seq<usize>,
    cursor: int,
    later: Seq<i64>,
    later_order: Seq<usize>,
)
    requires
        is_new_order(ids, last, order),
        is_last(ids, last, cursor),
        is_new_order(later, cursor, later_order),
    ensures
        forall|k: int, l: int|
            #![trigger order[k], later_order[l]]
            0 <= k < order.len() && 0 <= l < later_order.len() ==> ids[order[k] as int]
                < later[later_order[l] as int],
{
}

/// Of two looks at the log, an event that is above the cursor of the first is shown by
/// the second: none is missed.
pub proof fn law_no_event_missed(later: Seq<i64>, cursor: int, later_order: Seq<usize>, i: int)
    requires
        is_new_order(later, cursor, later_order),
        0 <= i < later.len(),
        later[i] > cursor,
    ensures
        exists|k: int| 0 <= k < later_order.len() && #[trigger] later_order[k] == i,
{
}

// ---------------------------------------------------------------- lines

/// The time of an event as it is shown, given its local form where there is one.
pub open spec fn event_time(local: Option<Seq<char>>, unix_secs: i64) -> Seq<char> {
    match local {
        Some(t) => t,
        None => text::pad_right(number::decimal(unix_secs as int), 19),
    }
}

/// The time of an event as it is shown, given its local form where there is one.
pub fn event_time_shown(local: Option<String>, unix_secs: i64) -> (r: String)
    ensures
        r@ == event_time(text_view(local), unix_secs),
{
    match local {
        Some(t) => t,
        None => padded_right(integer_text(unix_secs).as_str(), 19),
    }
}

/// Whether a text shows the time of an event: in the local form, or as seconds in
/// nineteen columns where it has none.
pub open spec fn shows_event_time(t: Seq<char>, unix_secs: i64) -> bool {
    if display::held_time(unix_secs) {
        display::local_form(t, unix_secs)
    } else {
        t == text::pad_right(number::decimal(unix_secs as int), 19)
    }
}

/// The time of an event in the zone of the machine.
pub fn fmt_event_ts(unix_secs: i64) -> (r: String)
    ensures
        shows_event_time(r@, unix_secs),
{
    event_time_shown(local_time(unix_secs), unix_secs)
}

/// The line of an event, given its time and its level in upper case.
pub open spec fn event_text(shown: Seq<char>, upper: Seq<char>, e: AuditEvent) -> Seq<char> {
    "["@ + shown + "] "@ + text::pad_right(upper, 5) + " "@ + text::pad_right(e.kind@, 11) + " | "@
        + text::trim(e.message@)
}

/// The line of an event, given its time and its level in upper case.
pub fn event_text_of(shown: &str, upper: &str, e: &AuditEvent) -> (r: String)
    ensures
        r@ == event_text(shown@, upper@, *e),
{
    let mut s = String::from_str("[");
    s.append(shown);
    s.append("] ");
    s.append(padded_right(upper, 5).as_str());
    s.append(" ");
    s.append(padded_right(e.kind.as_str(), 11).as_str());
    s.append(" | ");
    s.append(trimmed(e.message.as_str()));
    s
}

/// The colour of a line.
#[derive(Debug, Clone, Copy, PartialEq, Eq, Structural)]
pub enum Colour {
    Green,
    Yellow,
    BoldRed,
}

/// The colour of an event with a level in lower case.
pub open spec fn colour(lower: Seq<char>) -> Colour {
    if lower == "warn"@ {
        Colour::Yellow
    } else if lower == "error"@ {
        Colour::BoldRed
    } else {
        Colour::Green
    }
}

/// The colour of an event with a level in lower case.
pub fn colour_of(lower: &str) -> (r: Colour)
    ensures
        r == colour(lower@),
{
    if same_text(lower, "warn") {
        Colour::Yellow
    } else if same_text(lower, "error") {
        Colour::BoldRed
    } else {
        Colour::Green
    }
}

/// The line of an event and its colour.
pub fn print_event(e: &AuditEvent) -> (r: (String, Colour))
    ensures
        exists|shown: Seq<char>|
            shows_event_time(shown, e.ts) && r.0@ == #[trigger] event_text(
                shown,
                text::unicode_upper(e.level@),
                *e,
            ),
        r.1 == colour(text::unicode_lower(e.level@)),
{
    let shown = fmt_event_ts(e.ts);
    let upper = uppercase(e.level.as_str());
    let line = event_text_of(shown.as_str(), upper.as_str(), e);
    let tint = colour_of(lowercase(e.level.as_str()).as_str());
    assert(shows_event_time(shown@, e.ts) && line@ == event_text(
        shown@,
        text::unicode_upper(e.level@),
        *e,
    ));
    (line, tint)
}

/// What is said where the database is not there yet.
pub fn waiting_note(db_path: &str) -> (r: String)
    ensures
        r@ == "note: database not found at '"@ + db_path@
            + "'.  Waiting for daemon to create it…"@,
{
    let mut s = String::from_str("note: database not found at '");
    s.append(db_path);
    s.append("'.  Waiting for daemon to create it…");
    s
}

} // verus!
