//! The lock by which only one daemon runs on a database.

use vstd::prelude::*;
use vstd::string::*;

verus! {

/// Why the lock could not be had.
#[derive(Debug, Clone)]
pub enum LockError {
    /// Another daemon holds it.
    AlreadyRunning { lock_path: String },
    /// The lock file could not be made or locked.
    IoError { path: String, error: String },
}

impl LockError {
    /// The message that a user sees.
    pub open spec fn text(&self) -> Seq<char> {
        match *self {
            LockError::AlreadyRunning { lock_path } =>
                "Another knowledge-builder daemon is already running (lock: "@ + lock_path@
                + "). Stop it first or run `kb status` to check."@,
            LockError::IoError { path, error } => "I/O error on lock file "@ + path@ + ": "@
                + error@,
        }
    }

    /// The message that a user sees.
    pub fn message(&self) -> (r: String)
        ensures
            r@ == self.text(),
    {
        match self {
            LockError::AlreadyRunning { lock_path } => {
                let mut s = String::from_str(
                    "Another knowledge-builder daemon is already running (lock: ",
                );
                s.append(lock_path.as_str());
                s.append("). Stop it first or run `kb status` to check.");
                s
            },
            LockError::IoError { path, error } => {
                let mut s = String::from_str("I/O error on lock file ");
                s.append(path.as_str());
                s.append(": ");
                s.append(error.as_str());
                s
            },
        }
    }
}

/// The lock file of a database.
pub open spec fn lock_path(db_path: Seq<char>) -> Seq<char> {
    db_path + ".lock"@
}

/// The lock file of a database.
pub fn lock_path_for(db_path: &str) -> (r: String)
    ensures
        r@ == lock_path(db_path@),
{
    let mut s = String::from_str(db_path);
    s.append(".lock");
    s
}

/// What came of trying to lock the file.
#[derive(Debug, Clone)]
pub enum LockAttempt {
    Locked,
    /// The lock is held elsewhere.
    WouldBlock,
    Failed(String),
}

/// What an attempt to lock means for the daemon.
pub fn lock_outcome(db_path: &str, attempt: LockAttempt) -> (r: Result<String, LockError>)
    ensures
        match attempt {
            LockAttempt::Locked => r matches Ok(p) && p@ == lock_path(db_path@),
            LockAttempt::WouldBlock => r matches Err(LockError::AlreadyRunning { lock_path: p })
                && p@ == lock_path(db_path@),
            LockAttempt::Failed(e) => r matches Err(LockError::IoError { path, error }) && path@
                == lock_path(db_path@) && error@ == e@,
        },
{
    let path = lock_path_for(db_path);
    match attempt {
        LockAttempt::Locked => Ok(path),
        LockAttempt::WouldBlock => Err(LockError::AlreadyRunning { lock_path: path }),
        LockAttempt::Failed(error) => Err(LockError::IoError { path, error }),
    }
}

/// Whether a restore must wait: only where another daemon holds the lock.
pub fn daemon_lock_is_held(r: &Result<String, LockError>) -> (b: bool)
    ensures
        b == (r matches Err(e) && e is AlreadyRunning),
{
    match r {
        Err(LockError::AlreadyRunning { .. }) => true,
        _ => false,
    }
}

} // verus!
