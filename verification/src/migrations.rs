//! The schema of the state database, and how it is brought up to date.

use vstd::prelude::*;

verus! {

/// The statements of the first version of the schema.
pub const MIGRATION_001: &'static str = "
-- Sources discovered in the watched folder.
CREATE TABLE IF NOT EXISTS files (
  id              INTEGER PRIMARY KEY AUTOINCREMENT,
  path            TEXT    NOT NULL UNIQUE,
  content_hash    TEXT,
  size            INTEGER,
  mtime_ns        INTEGER,
  inode           INTEGER,
  status          TEXT    NOT NULL
                    CHECK (status IN
                      ('seen','queued','processing','done','failed','skipped')),
  attempts        INTEGER NOT NULL DEFAULT 0,
  next_attempt_at INTEGER,
  last_error      TEXT,
  first_seen_at   INTEGER NOT NULL,
  updated_at      INTEGER NOT NULL,
  processed_at    INTEGER,
  processor_meta  TEXT
);

CREATE INDEX IF NOT EXISTS idx_files_status
  ON files(status);
CREATE INDEX IF NOT EXISTS idx_files_hash
  ON files(content_hash);
CREATE INDEX IF NOT EXISTS idx_files_next_attempt
  ON files(status, next_attempt_at);

-- Outputs produced by processing a source.
CREATE TABLE IF NOT EXISTS outputs (
  id         INTEGER PRIMARY KEY AUTOINCREMENT,
  source_id  INTEGER NOT NULL REFERENCES files(id) ON DELETE CASCADE,
  path       TEXT    NOT NULL,
  kind       TEXT,
  bytes      INTEGER,
  created_at INTEGER NOT NULL
);

CREATE INDEX IF NOT EXISTS idx_outputs_source ON outputs(source_id);
CREATE INDEX IF NOT EXISTS idx_outputs_path   ON outputs(path);

-- Audit log for ops visibility.
CREATE TABLE IF NOT EXISTS events (
  id      INTEGER PRIMARY KEY AUTOINCREMENT,
  ts      INTEGER NOT NULL,
  level   TEXT    NOT NULL,
  kind    TEXT    NOT NULL,
  file_id INTEGER REFERENCES files(id) ON DELETE SET NULL,
  message TEXT    NOT NULL,
  detail  TEXT
);

CREATE INDEX IF NOT EXISTS idx_events_ts      ON events(ts);
CREATE INDEX IF NOT EXISTS idx_events_file_id ON events(file_id);
";

/// One version of the schema.
#[derive(Debug, Clone, Copy)]
pub struct Migration {
    pub version: i64,
    pub sql: &'static str,
}

/// All versions of the schema, in order.
pub open spec fn versions() -> Seq<i64> {
    seq![1i64]
}

/// The statements of a version.
pub open spec fn sql_of(version: i64) -> Seq<char> {
    if version == 1 {
        MIGRATION_001@
    } else {
        Seq::empty()
    }
}

/// Whether each migration has the statements of its version.
pub open spec fn in_full(ms: Seq<Migration>) -> bool {
    forall|i: int| 0 <= i < ms.len() ==> (#[trigger] ms[i]).sql@ == sql_of(ms[i].version)
}

/// The first `n` versions that come after the current one, in order.
pub open spec fn pending_versions(current: i64, n: nat) -> Seq<i64>
    decreases n,
{
    if n == 0 {
        Seq::empty()
    } else {
        let before = pending_versions(current, (n - 1) as nat);
        if versions()[n - 1] > current {
            before.push(versions()[n - 1])
        } else {
            before
        }
    }
}

/// The versions of a sequence of migrations.
pub open spec fn versions_of(ms: Seq<Migration>) -> Seq<i64> {
    Seq::new(ms.len(), |i: int| ms[i].version)
}

/// All migrations, in order.
pub fn all_migrations() -> (r: Vec<Migration>)
    ensures
        versions_of(r@) == versions(),
        in_full(r@),
{
    let mut r: Vec<Migration> = Vec::new();
    r.push(Migration { version: 1, sql: MIGRATION_001 });
    assert(versions_of(r@) =~= versions());
    r
}

/// The migrations that a database at version `current` still needs, in order.
pub fn pending(current: i64) -> (r: Vec<Migration>)
    ensures
        versions_of(r@) == pending_versions(current, versions().len()),
        in_full(r@),
{
    let all = all_migrations();
    let mut r: Vec<Migration> = Vec::new();
    let mut i: usize = 0;
    assert(versions_of(r@) =~= Seq::<i64>::empty());
    assert(versions_of(all@).len() == all@.len());
    while i < all.len()
        invariant
            i <= all@.len(),
            versions_of(all@) == versions(),
            all@.len() == versions().len(),
            versions_of(r@) == pending_versions(current, i as nat),
            in_full(all@),
            in_full(r@),
        decreases all@.len() - i,
    {
        assert(versions_of(all@)[i as int] == all@[i as int].version);
        if all[i].version > current {
            let ghost before = versions_of(r@);
            r.push(all[i]);
            assert(versions_of(r@) =~= before.push(all@[i as int].version));
        }
        i = i + 1;
    }
    r
}

/// The version of a database after the given migrations were applied to it.
pub open spec fn version_after(current: i64, applied: Seq<i64>) -> i64
    decreases applied.len(),
{
    if applied.len() == 0 {
        current
    } else {
        let v = applied.last();
        let before = version_after(current, applied.drop_last());
        if v > before {
            v
        } else {
            before
        }
    }
}

proof fn lemma_pending_covers(current: i64, n: nat)
    requires
        n <= versions().len(),
    ensures
        forall|i: int|
            0 <= i < n ==> #[trigger] versions()[i] <= version_after(
                current,
                pending_versions(current, n),
            ),
    decreases n,
{
    if n > 0 {
        lemma_pending_covers(current, (n - 1) as nat);
        let before = pending_versions(current, (n - 1) as nat);
        let now = pending_versions(current, n);
        lemma_version_grows(current, before);
        if versions()[n - 1] > current {
            assert(now.drop_last() =~= before);
            assert(now.last() == versions()[n - 1]);
        }
    }
}

proof fn lemma_version_grows(current: i64, applied: Seq<i64>)
    ensures
        version_after(current, applied) >= current,
    decreases applied.len(),
{
    if applied.len() > 0 {
        lemma_version_grows(current, applied.drop_last());
    }
}

proof fn lemma_nothing_pending(current: i64, n: nat)
    requires
        n <= versions().len(),
        forall|i: int| 0 <= i < n ==> #[trigger] versions()[i] <= current,
    ensures
        pending_versions(current, n) == Seq::<i64>::empty(),
    decreases n,
{
    if n > 0 {
        lemma_nothing_pending(current, (n - 1) as nat);
    }
}

/// Bringing a database up to date a second time applies nothing.
pub proof fn law_migrations_idempotent(current: i64)
    ensures
        pending_versions(
            version_after(current, pending_versions(current, versions().len())),
            versions().len(),
        ) == Seq::<i64>::empty(),
{
    lemma_pending_covers(current, versions().len());
    lemma_nothing_pending(
        version_after(current, pending_versions(current, versions().len())),
        versions().len(),
    );
}

} // verus!
