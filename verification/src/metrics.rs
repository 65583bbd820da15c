//! Names of the metrics that the daemon reports.

use vstd::prelude::*;

verus! {

/// Files that wait to be processed.
pub const QUEUE_DEPTH: &'static str = "kb_queue_depth";

/// Files that are being processed.
pub const IN_FLIGHT: &'static str = "kb_in_flight";

/// Files that were processed.
pub const PROCESSED_TOTAL: &'static str = "kb_processed_total";

/// Files that failed.
pub const FAILED_TOTAL: &'static str = "kb_failed_total";

/// Time that the processor took.
pub const PROCESSOR_DURATION: &'static str = "kb_processor_duration_seconds";

/// Time that hashing took.
pub const HASH_DURATION: &'static str = "kb_hash_duration_seconds";

/// Time that a scan took.
pub const SCAN_DURATION: &'static str = "kb_scan_duration_seconds";

} // verus!
