//! What the state database says of the queue.

use vstd::prelude::*;
use vstd::string::*;

use crate::types::{status_of, Stats, Status};

verus! {

/// What came of offering a file to the queue.
#[derive(Debug, Clone, Copy, PartialEq, Eq, Structural)]
pub enum EnqueueOutcome {
    /// The row is queued.
    Queued,
    /// Another row with the same content is done; this one is skipped.
    SkippedDuplicate,
    /// The row was queued or being processed already.
    AlreadyPending,
    /// The row was done already, with the same content.
    AlreadyDone,
}

/// A status as the database writes it, and how many rows have it.
#[derive(Debug, Clone)]
pub struct StatusCount {
    pub status: String,
    pub count: i64,
}

/// The count of the last row for status `s` among the first `n` rows; zero where
/// there is none.
pub open spec fn count_of(rows: Seq<StatusCount>, s: Status, n: nat) -> int
    decreases n,
{
    if n == 0 {
        0
    } else if status_of(rows[n - 1].status@) == Some(s) {
        rows[n - 1].count as int
    } else {
        count_of(rows, s, (n - 1) as nat)
    }
}

/// What the database says of the queue besides the counts.
#[derive(Debug, Clone)]
pub struct QueueFacts {
    /// When the oldest row that is queued or being processed was first seen.
    pub oldest_first_seen: Option<i64>,
    /// The error of the most recently updated failed row.
    pub last_error: Option<String>,
    pub now: i64,
}

/// The age of the oldest pending row, never negative.
pub open spec fn pending_age(f: QueueFacts) -> Option<int> {
    match f.oldest_first_seen {
        Some(t) => Some(
            if f.now >= t {
                f.now - t
            } else {
                0
            },
        ),
        None => None,
    }
}

/// The counts per status, the depth of the queue, and what else the database says
/// of it. A status that is not known is passed over.
pub fn stats_from_rows(rows: &Vec<StatusCount>, facts: &QueueFacts) -> (r: Stats)
    requires
        i64::MIN <= count_of(rows@, Status::Queued, rows@.len()) + count_of(
            rows@,
            Status::Processing,
            rows@.len(),
        ) <= i64::MAX,
        pending_age(*facts) matches Some(a) ==> a <= i64::MAX,
    ensures
        r.seen == count_of(rows@, Status::Seen, rows@.len()),
        r.queued == count_of(rows@, Status::Queued, rows@.len()),
        r.processing == count_of(rows@, Status::Processing, rows@.len()),
        r.done == count_of(rows@, Status::Done, rows@.len()),
        r.failed == count_of(rows@, Status::Failed, rows@.len()),
        r.skipped == count_of(rows@, Status::Skipped, rows@.len()),
        r.queue_depth == r.queued + r.processing,
        match pending_age(*facts) {
            Some(a) => r.oldest_pending_age_secs matches Some(x) && x == a,
            None => r.oldest_pending_age_secs is None,
        },
        match facts.last_error {
            Some(e) => r.last_error matches Some(x) && x@ == e@,
            None => r.last_error is None,
        },
{
    let mut r = Stats::default();
    let mut i: usize = 0;
    while i < rows.len()
        invariant
            i <= rows@.len(),
            r.seen == count_of(rows@, Status::Seen, i as nat),
            r.queued == count_of(rows@, Status::Queued, i as nat),
            r.processing == count_of(rows@, Status::Processing, i as nat),
            r.done == count_of(rows@, Status::Done, i as nat),
            r.failed == count_of(rows@, Status::Failed, i as nat),
            r.skipped == count_of(rows@, Status::Skipped, i as nat),
        decreases rows@.len() - i,
    {
        let n: i64 = rows[i].count;
        if let Ok(s) = Status::from_str(rows[i].status.as_str()) {
            match s {
                Status::Seen => {
                    r.seen = n;
                },
                Status::Queued => {
                    r.queued = n;
                },
                Status::Processing => {
                    r.processing = n;
                },
                Status::Done => {
                    r.done = n;
                },
                Status::Failed => {
                    r.failed = n;
                },
                Status::Skipped => {
                    r.skipped = n;
                },
            }
        }
        i = i + 1;
    }
    r.queue_depth = r.queued + r.processing;
    r.oldest_pending_age_secs = match facts.oldest_first_seen {
        Some(t) => {
            let age: i64 = if facts.now >= t {
                facts.now - t
            } else {
                0
            };
            Some(age)
        },
        None => None,
    };
    r.last_error = match &facts.last_error {
        Some(e) => Some(e.clone()),
        None => None,
    };
    r
}

} // verus!
