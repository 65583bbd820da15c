//! The kinds of audit events.

use vstd::prelude::*;

verus! {

pub const DISCOVERED: &'static str = "discovered";

pub const STABLE: &'static str = "stable";

pub const HASHED: &'static str = "hashed";

pub const QUEUED: &'static str = "queued";

pub const SKIPPED_DUPLICATE: &'static str = "skipped_duplicate";

pub const CLAIMED: &'static str = "claimed";

pub const PROCESSOR_STARTED: &'static str = "processor_started";

pub const PROCESSOR_STDOUT: &'static str = "processor_stdout";

pub const PROCESSOR_EXIT: &'static str = "processor_exit";

pub const OUTPUT_RECORDED: &'static str = "output_recorded";

pub const DONE: &'static str = "done";

pub const FAILED: &'static str = "failed";

pub const RECOVERED: &'static str = "recovered";

pub const SCAN_STARTED: &'static str = "scan_started";

pub const SCAN_FINISHED: &'static str = "scan_finished";

pub const CONFIG_LOADED: &'static str = "config_loaded";

pub const DAEMON_STARTED: &'static str = "daemon_started";

pub const DAEMON_STOPPING: &'static str = "daemon_stopping";

} // verus!
