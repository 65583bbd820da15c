//! The daemon's own endpoints: what they answer, and which events a follower of the
//! audit log is sent.

use vstd::prelude::*;
use vstd::string::*;

use crate::json;
use crate::json::{fields_view, object_text, text_view, Field};
use crate::number;
use crate::number::parse_integer;
use crate::tail;
use crate::tail::{ids_of, new_events};
use crate::text;
use crate::text::same_ignoring_case;
use crate::types::AuditEvent;

verus! {

// ---------------------------------------------------------------- answers

/// The members of the answer to `GET /healthz`.
pub open spec fn health_fields(uptime_secs: u64) -> Seq<(Seq<char>, json::FieldView)> {
    seq![
        ("ok"@, json::FieldView::Bool(true)),
        ("uptime_secs"@, json::FieldView::Unsigned(uptime_secs as int)),
    ]
}

/// The answer to `GET /healthz`.
pub fn healthz_body(uptime_secs: u64) -> (r: String)
    ensures
        r@ == json::object_written(health_fields(uptime_secs)),
        json::reads_back(r@, health_fields(uptime_secs)),
{
    let fields: Vec<(String, Field)> = vec![
        (String::from_str("ok"), Field::Bool(true)),
        (String::from_str("uptime_secs"), Field::Unsigned(uptime_secs)),
    ];
    assert(fields_view(fields@) =~= health_fields(uptime_secs));
    proof {
        reveal_strlit("ok");
        reveal_strlit("uptime_secs");
        json::lemma_plain_names(fields_view(fields@));
    }
    object_text(&fields)
}

/// The members of the answer of an endpoint that does nothing yet.
pub open spec fn absent_fields(endpoint: Seq<char>) -> Seq<(Seq<char>, json::FieldView)> {
    seq![
        ("error"@, json::FieldView::Text("not_implemented"@)),
        (
            "message"@,
            json::FieldView::Text(endpoint + " is not yet implemented (pending T29/T30)"@),
        ),
    ]
}

/// The status code of an endpoint that does nothing yet.
pub const NOT_IMPLEMENTED: u16 = 501;

/// The answer of an endpoint that does nothing yet.
pub fn not_implemented(endpoint: &str) -> (r: String)
    ensures
        r@ == json::object_written(absent_fields(endpoint@)),
        json::reads_back(r@, absent_fields(endpoint@)),
{
    let mut message = String::from_str(endpoint);
    message.append(" is not yet implemented (pending T29/T30)");
    let fields: Vec<(String, Field)> = vec![
        (String::from_str("error"), Field::Text(String::from_str("not_implemented"))),
        (String::from_str("message"), Field::Text(message)),
    ];
    assert(fields_view(fields@) =~= absent_fields(endpoint@));
    proof {
        reveal_strlit("error");
        reveal_strlit("message");
        json::lemma_plain_names(fields_view(fields@));
    }
    object_text(&fields)
}

// ---------------------------------------------------------------- following

/// Which events a follower asks for. Both filters ignore case.
#[derive(Debug, Clone)]
pub struct TailParams {
    pub level: Option<String>,
    pub kind: Option<String>,
}

impl Default for TailParams {
    fn default() -> (r: TailParams)
        ensures
            r.level is None,
            r.kind is None,
    {
        TailParams { level: None, kind: None }
    }
}

/// Whether a filter lets a value pass.
pub open spec fn lets_pass(filter: Option<Seq<char>>, value: Seq<char>) -> bool {
    match filter {
        Some(f) => text::lower_ascii(f) == text::lower_ascii(value),
        None => true,
    }
}

fn lets_pass_of(filter: &Option<String>, value: &str) -> (b: bool)
    ensures
        b == lets_pass(text_view(*filter), value@),
{
    match filter {
        Some(f) => same_ignoring_case(f.as_str(), value),
        None => true,
    }
}

/// Whether a follower wants an event.
pub open spec fn wants(p: TailParams, e: AuditEvent) -> bool {
    lets_pass(text_view(p.level), e.level@) && lets_pass(text_view(p.kind), e.kind@)
}

impl TailParams {
    /// Whether a follower wants an event.
    pub fn wanted(&self, e: &AuditEvent) -> (b: bool)
        ensures
            b == wants(*self, *e),
    {
        lets_pass_of(&self.level, e.level.as_str()) && lets_pass_of(&self.kind, e.kind.as_str())
    }
}

/// The event up to which a follower that comes back has seen the log: the number in
/// its `Last-Event-ID` header.
pub fn last_event_id(header: Option<&str>) -> (r: Option<i64>)
    ensures
        match (header, r) {
            (Some(h), Some(n)) => number::integer_of(h@) == Some(n as int),
            (Some(h), None) => number::integer_of(h@) is None || number::integer_of(h@)->0
                < i64::MIN || number::integer_of(h@)->0 > i64::MAX,
            (None, n) => n is None,
        },
{
    match header {
        Some(h) => parse_integer(h),
        None => None,
    }
}

/// The events among `order` that a follower wants.
pub open spec fn wanted_of(events: Seq<AuditEvent>, order: Seq<usize>, p: TailParams) -> Seq<usize> {
    order.filter(|i: usize| wants(p, events[i as int]))
}

/// Whether `sent` are the events that a follower missed: those above `last` that it
/// wants, all of them, in ascending order of their ids.
pub open spec fn is_catch_up(
    events: Seq<AuditEvent>,
    last: int,
    p: TailParams,
    sent: Seq<usize>,
) -> bool {
    exists|order: Seq<usize>| #[trigger]
        tail::is_new_order(ids_of(events), last, order) && sent == wanted_of(events, order, p)
}

/// The events that a follower missed, as indices.
pub fn catch_up(events: &Vec<AuditEvent>, last: i64, p: &TailParams) -> (r: Vec<usize>)
    ensures
        is_catch_up(events@, last as int, *p, r@),
{
    let (order, _) = new_events(events, last);
    let ghost pred = |i: usize| wants(*p, events@[i as int]);
    let ghost all = order@;
    let mut r: Vec<usize> = Vec::new();
    let mut k: usize = 0;
    proof {
        reveal(Seq::filter);
    }
    while k < order.len()
        invariant
            k <= order@.len(),
            all == order@,
            pred == (|i: usize| wants(*p, events@[i as int])),
            forall|j: int| 0 <= j < order@.len() ==> 0 <= (#[trigger] order@[j]) < events@.len(),
            r@ == all.take(k as int).filter(pred),
        decreases order@.len() - k,
    {
        let i: usize = order[k];
        proof {
            reveal(Seq::filter);
            let next = all.take(k + 1);
            assert(next.drop_last() =~= all.take(k as int));
            assert(next.last() == i);
        }
        if p.wanted(&events[i]) {
            r.push(i);
        }
        k = k + 1;
    }
    assert(all.take(k as int) =~= all);
    assert(wanted_of(events@, all, *p) == all.filter(pred));
    r
}

/// What comes from the live log.
#[derive(Debug, Clone)]
pub enum Live {
    Event(AuditEvent),
    /// So many events were passed over.
    Lagged(u64),
    Closed,
}

/// What to do with it.
#[derive(Debug, Clone)]
pub enum LiveNext {
    Send(AuditEvent),
    /// Wait for the next.
    Wait,
    /// The stream ends.
    End,
}

/// What to do with what comes from the live log: an event that the follower wants is
/// sent on as it is, and only the end of the log ends the stream.
pub fn live_step(p: &TailParams, input: Live) -> (r: LiveNext)
    ensures
        match input {
            Live::Event(e) => if wants(*p, e) {
                r == LiveNext::Send(e)
            } else {
                r == LiveNext::Wait
            },
            Live::Lagged(_) => r == LiveNext::Wait,
            Live::Closed => r == LiveNext::End,
        },
{
    match input {
        Live::Event(e) => if p.wanted(&e) {
            LiveNext::Send(e)
        } else {
            LiveNext::Wait
        },
        Live::Lagged(_) => LiveNext::Wait,
        Live::Closed => LiveNext::End,
    }
}

proof fn lemma_filter_keeps(order: Seq<usize>, pred: spec_fn(usize) -> bool, k: int)
    requires
        0 <= k < order.len(),
        pred(order[k]),
    ensures
        order.filter(pred).contains(order[k]),
    decreases order.len(),
{
    reveal(Seq::filter);
    let head = order.drop_last();
    if k == order.len() - 1 {
        assert(order.filter(pred) == head.filter(pred).push(order[k]));
        assert(order.filter(pred)[head.filter(pred).len() as int] == order[k]);
    } else {
        lemma_filter_keeps(head, pred, k);
        let m = choose|m: int| 0 <= m < head.filter(pred).len() && head.filter(pred)[m] == order[k];
        assert(order.filter(pred)[m] == order[k]);
    }
}

/// A follower that comes back misses nothing: of the events that it wants and has not
/// seen, each is sent.
pub proof fn law_no_gap(
    events: Seq<AuditEvent>,
    last: int,
    p: TailParams,
    sent: Seq<usize>,
    i: int,
)
    requires
        is_catch_up(events, last, p, sent),
        0 <= i < events.len(),
        i <= usize::MAX,
        events[i].id > last,
        wants(p, events[i]),
    ensures
        sent.contains(i as usize),
{
    let order = choose|order: Seq<usize>| #[trigger]
        tail::is_new_order(ids_of(events), last, order) && sent == wanted_of(events, order, p);
    let pred = |i: usize| wants(p, events[i as int]);
    assert(ids_of(events)[i] > last);
    let k = choose|k: int| 0 <= k < order.len() && #[trigger] order[k] == i;
    lemma_filter_keeps(order, pred, k);
    assert(wanted_of(events, order, p) == order.filter(pred));
}

} // verus!
