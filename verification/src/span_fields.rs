//! Names of the fields that log lines of the worker carry.

use vstd::prelude::*;

verus! {

/// The job.
pub const JOB_ID: &'static str = "job_id";

/// The source file.
pub const PATH: &'static str = "path";

/// The content hash of the source file.
pub const HASH: &'static str = "hash";

/// The number of the attempt, from one.
pub const ATTEMPT: &'static str = "attempt";

/// The step that is being taken.
pub const STEP: &'static str = "step";

} // verus!
