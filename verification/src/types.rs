//! The records that travel between the queue, the processor and the operator.

use vstd::prelude::*;
use vstd::string::*;

use crate::text;
use crate::text::{quote, same_text};

verus! {

// ---------------------------------------------------------------- status

/// Where a source file stands.
///
/// ```text
///   seen --> queued --> processing --> done
///                            |
///                            +--> failed --> (queued again after a delay)
///   seen --> skipped   (its content is already done under another path)
/// ```
#[derive(Debug, Clone, Copy, PartialEq, Eq, Hash, Structural)]
pub enum Status {
    /// Detected, but not yet stable and hashed.
    Seen,
    /// Stable, hashed, and waiting for a worker.
    Queued,
    /// Claimed by a worker.
    Processing,
    /// Processed successfully.
    Done,
    /// Processing failed.
    Failed,
    /// The content is a duplicate of something already done.
    Skipped,
}

/// The word that stands for a status in the database.
pub open spec fn status_word(s: Status) -> Seq<char> {
    match s {
        Status::Seen => "seen"@,
        Status::Queued => "queued"@,
        Status::Processing => "processing"@,
        Status::Done => "done"@,
        Status::Failed => "failed"@,
        Status::Skipped => "skipped"@,
    }
}

/// The status that a word stands for.
pub open spec fn status_of(w: Seq<char>) -> Option<Status> {
    if w == "seen"@ {
        Some(Status::Seen)
    } else if w == "queued"@ {
        Some(Status::Queued)
    } else if w == "processing"@ {
        Some(Status::Processing)
    } else if w == "done"@ {
        Some(Status::Done)
    } else if w == "failed"@ {
        Some(Status::Failed)
    } else if w == "skipped"@ {
        Some(Status::Skipped)
    } else {
        None
    }
}

impl Status {
    /// The word that stands for this status in the database.
    pub fn as_str(&self) -> (r: &'static str)
        ensures
            r@ == status_word(*self),
    {
        match self {
            Status::Seen => "seen",
            Status::Queued => "queued",
            Status::Processing => "processing",
            Status::Done => "done",
            Status::Failed => "failed",
            Status::Skipped => "skipped",
        }
    }

    /// The status that a word stands for, or a message that names the word.
    pub fn from_str(s: &str) -> (r: Result<Status, String>)
        ensures
            match r {
                Ok(st) => status_of(s@) == Some(st),
                Err(m) => status_of(s@) is None && m@ == "unknown status: "@ + text::quoted(s@),
            },
    {
        if same_text(s, "seen") {
            Ok(Status::Seen)
        } else if same_text(s, "queued") {
            Ok(Status::Queued)
        } else if same_text(s, "processing") {
            Ok(Status::Processing)
        } else if same_text(s, "done") {
            Ok(Status::Done)
        } else if same_text(s, "failed") {
            Ok(Status::Failed)
        } else if same_text(s, "skipped") {
            Ok(Status::Skipped)
        } else {
            let mut m = String::from_str("unknown status: ");
            let q = quote(s);
            m.append(q.as_str());
            Err(m)
        }
    }
}

/// The six words differ in their first letter or their length.
proof fn lemma_status_words()
    ensures
        "seen"@.len() == 4 && "seen"@[0] == 's',
        "queued"@.len() == 6 && "queued"@[0] == 'q',
        "processing"@.len() == 10 && "processing"@[0] == 'p',
        "done"@.len() == 4 && "done"@[0] == 'd',
        "failed"@.len() == 6 && "failed"@[0] == 'f',
        "skipped"@.len() == 7 && "skipped"@[0] == 's',
{
    reveal_strlit("seen");
    reveal_strlit("queued");
    reveal_strlit("processing");
    reveal_strlit("done");
    reveal_strlit("failed");
    reveal_strlit("skipped");
}

/// Every status is read back from its own word, and a word that is read stands
/// for what was read.
pub proof fn law_status_round_trip(s: Status, w: Seq<char>)
    ensures
        status_of(status_word(s)) == Some(s),
        status_of(w) is Some ==> status_word(status_of(w)->0) == w,
{
    lemma_status_words();
}

// ---------------------------------------------------------------- rows

/// A tracked source file. Times are in seconds since the Unix epoch.
#[derive(Debug, Clone)]
pub struct FileRow {
    pub id: i64,
    pub path: String,
    pub content_hash: Option<String>,
    pub size: Option<i64>,
    pub mtime_ns: Option<i64>,
    pub inode: Option<u64>,
    pub status: Status,
    pub attempts: i32,
    pub next_attempt_at: Option<i64>,
    pub last_error: Option<String>,
    pub first_seen_at: i64,
    pub updated_at: i64,
    pub processed_at: Option<i64>,
    /// What the processor reported of the last run, as JSON text.
    pub processor_meta: Option<String>,
}

/// An artifact that processing a source produced.
#[derive(Debug, Clone)]
pub struct OutputRecord {
    pub id: i64,
    pub source_id: i64,
    pub path: String,
    pub kind: Option<String>,
    pub bytes: Option<i64>,
    pub created_at: i64,
}

/// An entry of the audit log.
#[derive(Debug, Clone)]
pub struct AuditEvent {
    pub id: i64,
    pub ts: i64,
    pub level: String,
    pub kind: String,
    pub file_id: Option<i64>,
    pub message: String,
    pub detail: Option<String>,
}

// ---------------------------------------------------------------- processor

/// What a processor is told about its job.
#[derive(Debug, Clone)]
pub struct ProcessorInput {
    pub input_path: String,
    pub content_hash: String,
    pub vault_root: String,
    pub sources_dir: String,
    pub agent_root: String,
    pub work_dir: String,
    pub job_id: i64,
    pub attempt: i32,
}

/// One artifact that a processor reports.
#[derive(Debug, Clone)]
pub struct ProcessOutput {
    pub path: String,
    pub kind: String,
    pub bytes: i64,
}

/// What a processor reports at its end. Metadata is JSON text.
#[derive(Debug, Clone)]
pub enum ProcessResult {
    Success { outputs: Vec<ProcessOutput>, metadata: Option<String> },
    Error { error: String, retryable: bool, metadata: Option<String> },
}

/// Whether a failure that does not say so may be retried.
pub fn default_retryable() -> (r: bool)
    ensures
        r,
{
    true
}

impl ProcessResult {
    /// Whether the processor succeeded.
    pub fn is_ok(&self) -> (r: bool)
        ensures
            r == (self is Success),
    {
        match self {
            ProcessResult::Success { .. } => true,
            ProcessResult::Error { .. } => false,
        }
    }

    /// Whether the processor failed.
    pub fn is_err(&self) -> (r: bool)
        ensures
            r == (self is Error),
    {
        !self.is_ok()
    }

    /// The artifacts of a successful run; none of a failed one.
    pub fn outputs(&self) -> (r: &[ProcessOutput])
        ensures
            r@ == match *self {
                ProcessResult::Success { outputs, .. } => outputs@,
                ProcessResult::Error { .. } => Seq::empty(),
            },
    {
        match self {
            ProcessResult::Success { outputs, .. } => outputs.as_slice(),
            ProcessResult::Error { .. } => &[],
        }
    }

    /// The error text of a failed run.
    pub fn error_message(&self) -> (r: Option<&str>)
        ensures
            match *self {
                ProcessResult::Error { error, .. } => r matches Some(m) && m@ == error@,
                ProcessResult::Success { .. } => r is None,
            },
    {
        match self {
            ProcessResult::Error { error, .. } => Some(error.as_str()),
            ProcessResult::Success { .. } => None,
        }
    }

    /// Whether the job may be tried again: never after a success, else as the
    /// processor said.
    pub fn is_retryable(&self) -> (r: bool)
        ensures
            r == (*self matches ProcessResult::Error { retryable, .. } && retryable),
    {
        match self {
            ProcessResult::Success { .. } => false,
            ProcessResult::Error { retryable, .. } => *retryable,
        }
    }
}

// ---------------------------------------------------------------- queue

/// What became of a file that was offered to the queue.
#[derive(Debug, Clone, Copy, PartialEq, Eq, Structural)]
pub enum EnqueueOutcome {
    /// The file is new, or a new revision, and is now queued.
    Queued,
    /// Another row holds the same content and is done; this one is skipped.
    SkippedDuplicate,
    /// The row is already queued or being processed.
    AlreadyPending,
    /// The row is already done with the same content.
    AlreadyDone,
    /// The row was done with other content and is queued again.
    RequeuedRevision,
}

/// Counts per status, and what an operator wants to know of the queue.
#[derive(Debug, Clone)]
pub struct Stats {
    pub seen: i64,
    pub queued: i64,
    pub processing: i64,
    pub done: i64,
    pub failed: i64,
    pub skipped: i64,
    /// `queued` and `processing` together.
    pub queue_depth: i64,
    /// Age in seconds of the oldest entry that is queued or being processed.
    pub oldest_pending_age_secs: Option<i64>,
    /// The error of the most recently updated failed row.
    pub last_error: Option<String>,
}

impl Default for Stats {
    fn default() -> (r: Self)
        ensures
            r.seen == 0 && r.queued == 0 && r.processing == 0 && r.done == 0 && r.failed == 0
                && r.skipped == 0 && r.queue_depth == 0,
            r.oldest_pending_age_secs is None,
            r.last_error is None,
    {
        Stats {
            seen: 0,
            queued: 0,
            processing: 0,
            done: 0,
            failed: 0,
            skipped: 0,
            queue_depth: 0,
            oldest_pending_age_secs: None,
            last_error: None,
        }
    }
}

} // verus!
