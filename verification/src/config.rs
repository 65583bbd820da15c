//! Configuration: its shape and defaults, the expansion of its paths, and the
//! startup checks.
//!
//! The checks ask the file system first; what it answered arrives here as
//! [`Probes`], and [`Config::validate`] turns the answers into the complete list of
//! faults.

use vstd::prelude::*;
use vstd::string::*;

use crate::number;
use crate::number::{count_text, octal_text, unsigned_text};
use crate::paths;
use crate::paths::{equal_paths, is_under, join_path, parent_of};
use crate::text;
use crate::text::{has_text, replaced, same_text, strip_front, trimmed_start};

verus! {

// ---------------------------------------------------------------- faults

/// One fault of a configuration.
#[derive(Debug, Clone)]
pub enum ConfigError {
    /// `vault_root` is missing, no directory, or not readable and writable.
    VaultRoot { path: String, detail: String },
    /// `sources_dir` is missing, no directory, or not readable.
    SourcesDir { path: String, detail: String },
    /// `sources_dir` is not below `vault_root`.
    SourcesNotInsideVault { sources_dir: String, vault_root: String },
    /// `sources_dir` is `vault_root` itself.
    SourcesSameAsVault { sources_dir: String, vault_root: String },
    /// `agent_root` cannot be had or is not readable and writable.
    AgentRoot { path: String, detail: String },
    /// `agent_root` is not strictly inside `vault_root`.
    AgentRootNotInsideVault { agent_root: String, vault_root: String },
    /// `agent_root` and `sources_dir` are not disjoint.
    AgentRootOverlapsSources { agent_root: String, sources_dir: String },
    /// `processor.command` cannot be found or is not executable.
    ProcessorCommand { command: String, detail: String },
    /// The database cannot be opened at `db_path`.
    DbPath { db_path: String, detail: String },
    /// `log_dir` cannot be created.
    LogDir { log_dir: String, detail: String },
    /// There are fewer delays than retries.
    BackoffTooShort { len: usize, len_plural: &'static str, needed: usize, max_attempts: u32 },
}

/// A fault, over texts.
pub enum Fault {
    VaultRoot { path: Seq<char>, detail: Seq<char> },
    SourcesDir { path: Seq<char>, detail: Seq<char> },
    SourcesNotInsideVault { sources_dir: Seq<char>, vault_root: Seq<char> },
    SourcesSameAsVault { sources_dir: Seq<char>, vault_root: Seq<char> },
    AgentRoot { path: Seq<char>, detail: Seq<char> },
    AgentRootNotInsideVault { agent_root: Seq<char>, vault_root: Seq<char> },
    AgentRootOverlapsSources { agent_root: Seq<char>, sources_dir: Seq<char> },
    ProcessorCommand { command: Seq<char>, detail: Seq<char> },
    DbPath { db_path: Seq<char>, detail: Seq<char> },
    LogDir { log_dir: Seq<char>, detail: Seq<char> },
    BackoffTooShort { len: nat, len_plural: Seq<char>, needed: nat, max_attempts: nat },
}

impl View for ConfigError {
    type V = Fault;

    open spec fn view(&self) -> Fault {
        match *self {
            ConfigError::VaultRoot { path, detail } => Fault::VaultRoot {
                path: path@,
                detail: detail@,
            },
            ConfigError::SourcesDir { path, detail } => Fault::SourcesDir {
                path: path@,
                detail: detail@,
            },
            ConfigError::SourcesNotInsideVault { sources_dir, vault_root } =>
                Fault::SourcesNotInsideVault {
                sources_dir: sources_dir@,
                vault_root: vault_root@,
            },
            ConfigError::SourcesSameAsVault { sources_dir, vault_root } =>
                Fault::SourcesSameAsVault { sources_dir: sources_dir@, vault_root: vault_root@ },
            ConfigError::AgentRoot { path, detail } => Fault::AgentRoot {
                path: path@,
                detail: detail@,
            },
            ConfigError::AgentRootNotInsideVault { agent_root, vault_root } =>
                Fault::AgentRootNotInsideVault {
                agent_root: agent_root@,
                vault_root: vault_root@,
            },
            ConfigError::AgentRootOverlapsSources { agent_root, sources_dir } =>
                Fault::AgentRootOverlapsSources {
                agent_root: agent_root@,
                sources_dir: sources_dir@,
            },
            ConfigError::ProcessorCommand { command, detail } => Fault::ProcessorCommand {
                command: command@,
                detail: detail@,
            },
            ConfigError::DbPath { db_path, detail } => Fault::DbPath {
                db_path: db_path@,
                detail: detail@,
            },
            ConfigError::LogDir { log_dir, detail } => Fault::LogDir {
                log_dir: log_dir@,
                detail: detail@,
            },
            ConfigError::BackoffTooShort { len, len_plural, needed, max_attempts } =>
                Fault::BackoffTooShort {
                len: len as nat,
                len_plural: len_plural@,
                needed: needed as nat,
                max_attempts: max_attempts as nat,
            },
        }
    }
}

/// The faults of a list.
pub open spec fn faults(v: Seq<ConfigError>) -> Seq<Fault> {
    Seq::new(v.len(), |i: int| v[i]@)
}

/// What a user reads of a fault: what is wrong, and what to do about it.
pub open spec fn fault_text(f: Fault) -> Seq<char> {
    match f {
        Fault::VaultRoot { path, detail } => "vault_root '"@ + path + "': "@ + detail
            + "\nAction: create the directory and ensure the current user has read+write access."@,
        Fault::SourcesDir { path, detail } => "sources_dir '"@ + path + "': "@ + detail
            + "\nAction: create the directory and ensure the current user has read access."@,
        Fault::SourcesNotInsideVault { sources_dir, vault_root } => "sources_dir '"@ + sources_dir
            + "' is not inside vault_root '"@ + vault_root
            + "'.\nAction: set sources_dir to a path that is nested under vault_root."@,
        Fault::SourcesSameAsVault { sources_dir, vault_root } => "sources_dir '"@ + sources_dir
            + "' resolves to the same path as vault_root '"@ + vault_root
            + "'.\nAction: set sources_dir to a strict subdirectory of vault_root (e.g. vault_root/Sources)."@,
        Fault::AgentRoot { path, detail } => "agent_root '"@ + path + "': "@ + detail
            + "\nAction: ensure the directory exists or can be created and that the current user has read+write access."@,
        Fault::AgentRootNotInsideVault { agent_root, vault_root } => "agent_root '"@ + agent_root
            + "' is not strictly inside vault_root '"@ + vault_root
            + "'.\nAction: set agent_root to a path nested inside (and not equal to) vault_root.  Default: <vault_root>/KnowledgeBase."@,
        Fault::AgentRootOverlapsSources { agent_root, sources_dir } => "agent_root '"@ + agent_root
            + "' overlaps sources_dir '"@ + sources_dir
            + "'.\nAction: agent_root and sources_dir must be disjoint directories (neither one inside the other)."@,
        Fault::ProcessorCommand { command, detail } => "processor.command '"@ + command + "': "@
            + detail
            + "\nAction: verify the script path is correct, that the file exists, and that it has execute permission (`chmod +x`)."@,
        Fault::DbPath { db_path, detail } => "db_path '"@ + db_path + "': "@ + detail
            + "\nAction: ensure the parent directory exists or can be created, and that the current user can write there."@,
        Fault::LogDir { log_dir, detail } => "log_dir '"@ + log_dir + "': "@ + detail
            + "\nAction: ensure the parent directory exists or can be created, and that the current user can write there."@,
        Fault::BackoffTooShort { len, len_plural, needed, max_attempts } =>
            "worker.backoff_secs has "@ + number::numeral(len) + " entr"@ + len_plural
                + " but worker.max_attempts="@ + number::numeral(max_attempts)
                + " requires at least "@ + number::numeral(needed)
                + " (one entry per retry, i.e. max_attempts − 1).\nAction: add more entries to [[worker].backoff_secs] in config.toml."@,
    }
}

fn sentence(a: &str, b: &str, c: &str, d: &str, e: &str) -> (r: String)
    ensures
        r@ == a@ + b@ + c@ + d@ + e@,
{
    let mut s = String::from_str(a);
    s.append(b);
    s.append(c);
    s.append(d);
    s.append(e);
    s
}

impl ConfigError {
    /// What a user reads of this fault.
    pub fn message(&self) -> (r: String)
        ensures
            r@ == fault_text(self@),
    {
        match self {
            ConfigError::VaultRoot { path, detail } => sentence(
                "vault_root '",
                path.as_str(),
                "': ",
                detail.as_str(),
                "\nAction: create the directory and ensure the current user has read+write access.",
            ),
            ConfigError::SourcesDir { path, detail } => sentence(
                "sources_dir '",
                path.as_str(),
                "': ",
                detail.as_str(),
                "\nAction: create the directory and ensure the current user has read access.",
            ),
            ConfigError::SourcesNotInsideVault { sources_dir, vault_root } => sentence(
                "sources_dir '",
                sources_dir.as_str(),
                "' is not inside vault_root '",
                vault_root.as_str(),
                "'.\nAction: set sources_dir to a path that is nested under vault_root.",
            ),
            ConfigError::SourcesSameAsVault { sources_dir, vault_root } => sentence(
                "sources_dir '",
                sources_dir.as_str(),
                "' resolves to the same path as vault_root '",
                vault_root.as_str(),
                "'.\nAction: set sources_dir to a strict subdirectory of vault_root (e.g. vault_root/Sources).",
            ),
            ConfigError::AgentRoot { path, detail } => sentence(
                "agent_root '",
                path.as_str(),
                "': ",
                detail.as_str(),
                "\nAction: ensure the directory exists or can be created and that the current user has read+write access.",
            ),
            ConfigError::AgentRootNotInsideVault { agent_root, vault_root } => sentence(
                "agent_root '",
                agent_root.as_str(),
                "' is not strictly inside vault_root '",
                vault_root.as_str(),
                "'.\nAction: set agent_root to a path nested inside (and not equal to) vault_root.  Default: <vault_root>/KnowledgeBase.",
            ),
            ConfigError::AgentRootOverlapsSources { agent_root, sources_dir } => sentence(
                "agent_root '",
                agent_root.as_str(),
                "' overlaps sources_dir '",
                sources_dir.as_str(),
                "'.\nAction: agent_root and sources_dir must be disjoint directories (neither one inside the other).",
            ),
            ConfigError::ProcessorCommand { command, detail } => sentence(
                "processor.command '",
                command.as_str(),
                "': ",
                detail.as_str(),
                "\nAction: verify the script path is correct, that the file exists, and that it has execute permission (`chmod +x`).",
            ),
            ConfigError::DbPath { db_path, detail } => sentence(
                "db_path '",
                db_path.as_str(),
                "': ",
                detail.as_str(),
                "\nAction: ensure the parent directory exists or can be created, and that the current user can write there.",
            ),
            ConfigError::LogDir { log_dir, detail } => sentence(
                "log_dir '",
                log_dir.as_str(),
                "': ",
                detail.as_str(),
                "\nAction: ensure the parent directory exists or can be created, and that the current user can write there.",
            ),
            ConfigError::BackoffTooShort { len, len_plural, needed, max_attempts } => {
                let mut s = String::from_str("worker.backoff_secs has ");
                s.append(count_text(*len).as_str());
                s.append(" entr");
                s.append(len_plural);
                s.append(" but worker.max_attempts=");
                s.append(unsigned_text(*max_attempts as u64).as_str());
                s.append(" requires at least ");
                s.append(count_text(*needed).as_str());
                s.append(
                    " (one entry per retry, i.e. max_attempts − 1).\nAction: add more entries to [[worker].backoff_secs] in config.toml.",
                );
                s
            },
        }
    }
}

/// A list of faults that is shown as a numbered list.
#[derive(Debug, Clone)]
pub struct ConfigErrors(pub Vec<ConfigError>);

/// The numbered entries for the first `n` of `fs`.
pub open spec fn numbered(fs: Seq<Fault>, n: nat) -> Seq<char>
    decreases n,
{
    if n == 0 {
        Seq::empty()
    } else {
        numbered(fs, (n - 1) as nat) + "\n  ["@ + number::numeral(n) + "] "@ + fault_text(
            fs[n - 1],
        ) + "\n"@
    }
}

/// The whole listing of a list of faults.
pub open spec fn listing(fs: Seq<Fault>) -> Seq<char> {
    "Configuration validation failed with "@ + number::numeral(fs.len()) + " error(s):\n"@
        + numbered(fs, fs.len())
}

impl ConfigErrors {
    /// The faults as a numbered list under a heading.
    pub fn message(&self) -> (r: String)
        ensures
            r@ == listing(faults(self.0@)),
    {
        let ghost fs = faults(self.0@);
        let mut s = String::from_str("Configuration validation failed with ");
        s.append(count_text(self.0.len()).as_str());
        s.append(" error(s):\n");
        let ghost heading = s@;
        let mut i: usize = 0;
        assert(heading + Seq::<char>::empty() =~= heading);
        while i < self.0.len()
            invariant
                fs == faults(self.0@),
                i <= self.0@.len(),
                s@ == heading + numbered(fs, i as nat),
            decreases self.0@.len() - i,
        {
            let m = self.0[i].message();
            let ghost before = numbered(fs, i as nat);
            s.append("\n  [");
            s.append(count_text(i + 1).as_str());
            s.append("] ");
            s.append(m.as_str());
            s.append("\n");
            assert(s@ =~= heading + numbered(fs, (i + 1) as nat));
            i = i + 1;
        }
        s
    }
}

// ---------------------------------------------------------------- shape

/// The whole configuration.
#[derive(Debug, Clone)]
pub struct Config {
    pub paths: PathsConfig,
    pub watch: WatchConfig,
    pub worker: WorkerConfig,
    pub processor: ProcessorConfig,
    pub ops: OpsConfig,
}

/// Where things are.
#[derive(Debug, Clone)]
pub struct PathsConfig {
    /// The vault; every output lies inside it.
    pub vault_root: String,
    /// Where source files are dropped, inside the vault.
    pub sources_dir: String,
    /// The part of the vault that the agent may change.
    pub agent_root: String,
    /// The database file.
    pub db_path: String,
    /// The directory of the log files.
    pub log_dir: String,
}

/// Which files are watched, and how.
#[derive(Debug, Clone)]
pub struct WatchConfig {
    /// Extensions to admit, in lower case and without the dot.
    pub extensions: Vec<String>,
    /// Patterns that suppress an admitted path.
    pub ignore_globs: Vec<String>,
    /// How long size and time must stay the same before a file is hashed.
    pub stability_ms: u64,
    /// The interval between full scans.
    pub poll_interval_secs: u64,
    /// How much is read at once when a file is hashed.
    pub hash_chunk_bytes: usize,
}

/// How jobs are run.
#[derive(Debug, Clone)]
pub struct WorkerConfig {
    /// How many processors run at once.
    pub concurrency: usize,
    /// How often a job is tried.
    pub max_attempts: u32,
    /// The delay before each retry; at least `max_attempts - 1` of them.
    pub backoff_secs: Vec<u64>,
}

/// The processor program.
#[derive(Debug, Clone)]
pub struct ProcessorConfig {
    /// A path, or a name to look up on `PATH`.
    pub command: String,
    /// How long one run may take.
    pub timeout_secs: u64,
    /// Where the working directories of jobs are made.
    pub work_dir_root: String,
}

/// The local HTTP server and the log.
#[derive(Debug, Clone)]
pub struct OpsConfig {
    pub http_bind: String,
    pub log_level: String,
    pub log_format: String,
}

impl Default for Config {
    fn default() -> (r: Self)
        ensures
            r.paths.vault_root@ == "~/Vault"@,
            r.paths.sources_dir@ == "~/Vault/Sources"@,
            r.paths.agent_root@ == "~/Vault/KnowledgeBase"@,
            r.paths.db_path@ == "~/Library/Application Support/knowledge-builder/state.db"@,
            r.paths.log_dir@ == "~/Library/Logs/knowledge-builder"@,
            text::views(r.watch.extensions@) == seq![
                "pdf"@,
                "docx"@,
                "xlsx"@,
                "ppt"@,
                "pptx"@,
                "jpg"@,
                "jpeg"@,
                "png"@,
            ],
            text::views(r.watch.ignore_globs@) == seq![
                "**/.*"@,
                "**/~$*"@,
                "**/.obsidian/**"@,
                "**/*.icloud"@,
            ],
            r.watch.stability_ms == 2000,
            r.watch.poll_interval_secs == 300,
            r.watch.hash_chunk_bytes == 1048576,
            r.worker.concurrency == 2,
            r.worker.max_attempts == 3,
            r.worker.backoff_secs@ == seq![30u64, 300u64, 1800u64],
            r.processor.command@ == "~/.local/share/kb/venv/bin/kb-processor"@,
            r.processor.timeout_secs == 3600,
            r.processor.work_dir_root@ == "~/Library/Caches/knowledge-builder/jobs"@,
            r.ops.http_bind@ == "127.0.0.1:7878"@,
            r.ops.log_level@ == "info"@,
            r.ops.log_format@ == "json"@,
    {
        let extensions: Vec<String> = vec![
            String::from_str("pdf"),
            String::from_str("docx"),
            String::from_str("xlsx"),
            String::from_str("ppt"),
            String::from_str("pptx"),
            String::from_str("jpg"),
            String::from_str("jpeg"),
            String::from_str("png"),
        ];
        let ignore_globs: Vec<String> = vec![
            String::from_str("**/.*"),
            String::from_str("**/~$*"),
            String::from_str("**/.obsidian/**"),
            String::from_str("**/*.icloud"),
        ];
        let backoff_secs: Vec<u64> = vec![30u64, 300u64, 1800u64];
        assert(text::views(extensions@) =~= seq![
            "pdf"@,
            "docx"@,
            "xlsx"@,
            "ppt"@,
            "pptx"@,
            "jpg"@,
            "jpeg"@,
            "png"@,
        ]);
        assert(text::views(ignore_globs@) =~= seq![
            "**/.*"@,
            "**/~$*"@,
            "**/.obsidian/**"@,
            "**/*.icloud"@,
        ]);
        assert(backoff_secs@ =~= seq![30u64, 300u64, 1800u64]);
        Config {
            paths: PathsConfig {
                vault_root: String::from_str("~/Vault"),
                sources_dir: String::from_str("~/Vault/Sources"),
                agent_root: String::from_str("~/Vault/KnowledgeBase"),
                db_path: String::from_str(
                    "~/Library/Application Support/knowledge-builder/state.db",
                ),
                log_dir: String::from_str("~/Library/Logs/knowledge-builder"),
            },
            watch: WatchConfig {
                extensions,
                ignore_globs,
                stability_ms: 2000,
                poll_interval_secs: 300,
                hash_chunk_bytes: 1048576,
            },
            worker: WorkerConfig { concurrency: 2, max_attempts: 3, backoff_secs },
            processor: ProcessorConfig {
                command: String::from_str("~/.local/share/kb/venv/bin/kb-processor"),
                timeout_secs: 3600,
                work_dir_root: String::from_str("~/Library/Caches/knowledge-builder/jobs"),
            },
            ops: OpsConfig {
                http_bind: String::from_str("127.0.0.1:7878"),
                log_level: String::from_str("info"),
                log_format: String::from_str("json"),
            },
        }
    }
}

/// The `agent_root` of a configuration that names none: a marker that
/// [`expand_all_paths`] resolves.
pub fn default_agent_root() -> (r: String)
    ensures
        r@ == "<vault_root>/KnowledgeBase"@,
{
    String::from_str("<vault_root>/KnowledgeBase")
}

// ---------------------------------------------------------------- expansion

/// A path with a leading `~` replaced by the home directory, where there is one.
pub open spec fn tilde(path: Seq<char>, home: Option<Seq<char>>) -> Seq<char> {
    match home {
        None => path,
        Some(h) => if path == "~"@ {
            h
        } else if text::starts_with(path, "~/"@) {
            paths::join(h, path.skip(2))
        } else {
            path
        },
    }
}

/// The home directory as a sequence of characters.
pub open spec fn home_view(home: Option<&str>) -> Option<Seq<char>> {
    match home {
        Some(h) => Some(h@),
        None => None,
    }
}

/// Replaces a leading `~` or `~/` by the home directory; anything else, and
/// everything where no home is known, stays as it is.
pub fn expand_tilde(path: &str, home: Option<&str>) -> (r: String)
    ensures
        r@ == tilde(path@, home_view(home)),
{
    match home {
        None => String::from_str(path),
        Some(h) => {
            if same_text(path, "~") {
                return String::from_str(h);
            }
            proof {
                reveal_strlit("~/");
            }
            match strip_front(path, "~/") {
                Some(rest) => join_path(h, rest),
                None => String::from_str(path),
            }
        },
    }
}

/// `agent_root` with the vault marker resolved and a leading `~` replaced.
pub open spec fn agent_root_of(
    raw: Seq<char>,
    vault_root: Seq<char>,
    home: Option<Seq<char>>,
) -> Seq<char> {
    tilde(text::replace_all(raw, "<vault_root>"@, vault_root), home)
}

/// Whether `r` is `cfg` with every path expanded and all else unchanged.
pub open spec fn expanded(cfg: Config, home: Option<Seq<char>>, r: Config) -> bool {
    &&& r.paths.vault_root@ == tilde(cfg.paths.vault_root@, home)
    &&& r.paths.sources_dir@ == tilde(cfg.paths.sources_dir@, home)
    &&& r.paths.db_path@ == tilde(cfg.paths.db_path@, home)
    &&& r.paths.log_dir@ == tilde(cfg.paths.log_dir@, home)
    &&& r.processor.command@ == tilde(cfg.processor.command@, home)
    &&& r.processor.work_dir_root@ == tilde(cfg.processor.work_dir_root@, home)
    &&& r.paths.agent_root@ == agent_root_of(
        cfg.paths.agent_root@,
        tilde(cfg.paths.vault_root@, home),
        home,
    )
    &&& r.processor.timeout_secs == cfg.processor.timeout_secs
    &&& r.watch == cfg.watch
    &&& r.worker == cfg.worker
    &&& r.ops == cfg.ops
}

/// Expands every path of a configuration.
pub fn expand_all_paths(cfg: Config, home: Option<&str>) -> (r: Config)
    ensures
        expanded(cfg, home_view(home), r),
{
    let vault_root = expand_tilde(cfg.paths.vault_root.as_str(), home);
    let named = replaced(cfg.paths.agent_root.as_str(), "<vault_root>", vault_root.as_str());
    let agent_root = expand_tilde(named.as_str(), home);
    Config {
        paths: PathsConfig {
            vault_root,
            sources_dir: expand_tilde(cfg.paths.sources_dir.as_str(), home),
            agent_root,
            db_path: expand_tilde(cfg.paths.db_path.as_str(), home),
            log_dir: expand_tilde(cfg.paths.log_dir.as_str(), home),
        },
        watch: cfg.watch,
        worker: cfg.worker,
        processor: ProcessorConfig {
            command: expand_tilde(cfg.processor.command.as_str(), home),
            timeout_secs: cfg.processor.timeout_secs,
            work_dir_root: expand_tilde(cfg.processor.work_dir_root.as_str(), home),
        },
        ops: cfg.ops,
    }
}

/// The configuration file, below the home directory or, where none is known,
/// below the current one.
pub open spec fn config_file(home: Option<Seq<char>>) -> Seq<char> {
    let base = match home {
        Some(h) => h,
        None => "."@,
    };
    paths::join(paths::join(paths::join(base, ".config"@), "knowledge-builder"@), "config.toml"@)
}

/// The path of the configuration file.
pub fn config_file_path(home: Option<&str>) -> (r: String)
    ensures
        r@ == config_file(home_view(home)),
{
    let base = match home {
        Some(h) => h,
        None => ".",
    };
    let a = join_path(base, ".config");
    let b = join_path(a.as_str(), "knowledge-builder");
    join_path(b.as_str(), "config.toml")
}

/// Expands what was read from the file and the environment, without checking it.
pub fn load_raw(read: Config, home: Option<&str>) -> (r: Config)
    ensures
        expanded(read, home_view(home), r),
{
    expand_all_paths(read, home)
}

/// The same as [`load_raw`].
pub fn load(read: Config, home: Option<&str>) -> (r: Config)
    ensures
        expanded(read, home_view(home), r),
{
    load_raw(read, home)
}

// ---------------------------------------------------------------- answers

/// What the file system says of the vault: the first thing that failed, or the
/// canonical path.
#[derive(Debug, Clone)]
pub enum VaultProbe {
    Inaccessible(String),
    NotADirectory,
    Unreadable(String),
    Unwritable(String),
    NotCanonical(String),
    Usable(String),
}

/// What the file system says of the sources directory.
#[derive(Debug, Clone)]
pub enum SourcesProbe {
    Inaccessible(String),
    NotADirectory,
    Unreadable(String),
    NotCanonical(String),
    Usable(String),
}

/// What the file system says of the agent's directory, which is created where it
/// is missing.
#[derive(Debug, Clone)]
pub enum AgentProbe {
    Uncreatable(String),
    Inaccessible(String),
    NotADirectory,
    Unreadable(String),
    Unwritable(String),
    NotCanonical(String),
    Usable(String),
}

/// What the file system says of the program of the processor.
#[derive(Debug, Clone)]
pub enum CommandProbe {
    /// No such file, or nothing of that name on `PATH`.
    NotFound,
    /// It was found but not examined.
    NoMetadata { resolved: String, error: String },
    Directory { resolved: String },
    File { resolved: String, mode: u32 },
}

/// What happened when the database was opened.
#[derive(Debug, Clone)]
pub enum DbProbe {
    ParentNotCreated(String),
    NotOpened(String),
    NotAnswering(String),
    Usable,
}

/// Every answer that the startup checks need.
#[derive(Debug, Clone)]
pub struct Probes {
    pub vault: VaultProbe,
    pub sources: SourcesProbe,
    pub agent: AgentProbe,
    pub command: CommandProbe,
    pub db: DbProbe,
    /// The error of creating the log directory.
    pub log_dir_error: Option<String>,
}

/// The canonical vault, where it is usable.
pub open spec fn vault_place(p: VaultProbe) -> Option<Seq<char>> {
    match p {
        VaultProbe::Usable(c) => Some(c@),
        _ => None,
    }
}

/// The canonical sources directory, where it is usable.
pub open spec fn sources_place(p: SourcesProbe) -> Option<Seq<char>> {
    match p {
        SourcesProbe::Usable(c) => Some(c@),
        _ => None,
    }
}

/// The canonical agent directory, where it is usable.
pub open spec fn agent_place(p: AgentProbe) -> Option<Seq<char>> {
    match p {
        AgentProbe::Usable(c) => Some(c@),
        _ => None,
    }
}

// ---------------------------------------------------------------- the checks

pub open spec fn vault_faults(path: Seq<char>, p: VaultProbe) -> Seq<Fault> {
    match p {
        VaultProbe::Inaccessible(e) => seq![
            Fault::VaultRoot { path, detail: "does not exist or cannot be accessed: "@ + e@ },
        ],
        VaultProbe::NotADirectory => seq![
            Fault::VaultRoot { path, detail: "path exists but is not a directory"@ },
        ],
        VaultProbe::Unreadable(e) => seq![
            Fault::VaultRoot { path, detail: "directory is not readable: "@ + e@ },
        ],
        VaultProbe::Unwritable(e) => seq![
            Fault::VaultRoot { path, detail: "directory is not writable: "@ + e@ },
        ],
        VaultProbe::NotCanonical(e) => seq![
            Fault::VaultRoot { path, detail: "cannot canonicalize path: "@ + e@ },
        ],
        VaultProbe::Usable(_) => Seq::empty(),
    }
}

pub open spec fn sources_faults(path: Seq<char>, p: SourcesProbe) -> Seq<Fault> {
    match p {
        SourcesProbe::Inaccessible(e) => seq![
            Fault::SourcesDir { path, detail: "does not exist or cannot be accessed: "@ + e@ },
        ],
        SourcesProbe::NotADirectory => seq![
            Fault::SourcesDir { path, detail: "path exists but is not a directory"@ },
        ],
        SourcesProbe::Unreadable(e) => seq![
            Fault::SourcesDir { path, detail: "directory is not readable: "@ + e@ },
        ],
        SourcesProbe::NotCanonical(e) => seq![
            Fault::SourcesDir { path, detail: "cannot canonicalize path: "@ + e@ },
        ],
        SourcesProbe::Usable(_) => Seq::empty(),
    }
}

pub open spec fn agent_faults(path: Seq<char>, p: AgentProbe) -> Seq<Fault> {
    match p {
        AgentProbe::Uncreatable(e) => seq![
            Fault::AgentRoot {
                path,
                detail: "directory does not exist and could not be created: "@ + e@,
            },
        ],
        AgentProbe::Inaccessible(e) => seq![
            Fault::AgentRoot { path, detail: "cannot access: "@ + e@ },
        ],
        AgentProbe::NotADirectory => seq![
            Fault::AgentRoot { path, detail: "path exists but is not a directory"@ },
        ],
        AgentProbe::Unreadable(e) => seq![
            Fault::AgentRoot { path, detail: "directory is not readable: "@ + e@ },
        ],
        AgentProbe::Unwritable(e) => seq![
            Fault::AgentRoot { path, detail: "directory is not writable: "@ + e@ },
        ],
        AgentProbe::NotCanonical(e) => seq![
            Fault::AgentRoot { path, detail: "cannot canonicalize path: "@ + e@ },
        ],
        AgentProbe::Usable(_) => Seq::empty(),
    }
}

/// The sources directory must be strictly below the vault.
pub open spec fn sources_in_vault(
    vault: Option<Seq<char>>,
    sources: Option<Seq<char>>,
) -> Seq<Fault> {
    match (vault, sources) {
        (Some(v), Some(s)) => if !paths::under(s, v) {
            seq![Fault::SourcesNotInsideVault { sources_dir: s, vault_root: v }]
        } else if paths::same_path(s, v) {
            seq![Fault::SourcesSameAsVault { sources_dir: s, vault_root: v }]
        } else {
            Seq::empty()
        },
        _ => Seq::empty(),
    }
}

/// The agent's directory must be strictly below the vault.
pub open spec fn agent_in_vault(vault: Option<Seq<char>>, agent: Option<Seq<char>>) -> Seq<Fault> {
    match (vault, agent) {
        (Some(v), Some(a)) => if !paths::under(a, v) || paths::same_path(a, v) {
            seq![Fault::AgentRootNotInsideVault { agent_root: a, vault_root: v }]
        } else {
            Seq::empty()
        },
        _ => Seq::empty(),
    }
}

/// The agent's directory and the sources directory must be disjoint.
pub open spec fn agent_off_sources(
    sources: Option<Seq<char>>,
    agent: Option<Seq<char>>,
) -> Seq<Fault> {
    match (sources, agent) {
        (Some(s), Some(a)) => if paths::same_path(s, a) || paths::under(a, s) || paths::under(
            s,
            a,
        ) {
            seq![Fault::AgentRootOverlapsSources { agent_root: a, sources_dir: s }]
        } else {
            Seq::empty()
        },
        _ => Seq::empty(),
    }
}

/// Whether a file mode has an execute bit.
pub open spec fn executable(mode: u32) -> bool {
    mode & 0o111u32 != 0
}

/// The characters of a text before the first white space.
pub open spec fn word(s: Seq<char>) -> Seq<char>
    decreases s.len(),
{
    if s.len() == 0 || text::white(s[0]) {
        Seq::empty()
    } else {
        seq![s[0]] + word(s.skip(1))
    }
}

/// The program that a command runs: the first of its words. The others are arguments.
pub open spec fn program(command: Seq<char>) -> Seq<char> {
    word(text::trim_start(command))
}

/// The program that a command runs.
pub fn program_of(command: &str) -> (r: &str)
    ensures
        r@ == program(command@),
{
    let rest = trimmed_start(command);
    let v = text::chars_of(rest);
    let mut i: usize = 0;
    assert(rest@.skip(0) =~= rest@);
    assert(rest@.take(0) + word(rest@.skip(0)) =~= word(rest@));
    while i < v.len() && !text::is_white(v[i])
        invariant
            v@ == rest@,
            i <= v@.len(),
            rest@.take(i as int) + word(rest@.skip(i as int)) == word(rest@),
        decreases v@.len() - i,
    {
        assert(rest@.skip(i as int).skip(1) =~= rest@.skip(i + 1));
        assert(rest@.take(i as int) + (seq![rest@[i as int]] + word(rest@.skip(i + 1)))
            =~= rest@.take(i + 1) + word(rest@.skip(i + 1)));
        i = i + 1;
    }
    assert(rest@.take(i as int) + Seq::<char>::empty() =~= rest@.subrange(0, i as int));
    rest.substring_char(0, i)
}

/// What is wrong with the command of the processor, given what the file system says of
/// its program.
pub open spec fn command_faults(command: Seq<char>, p: CommandProbe) -> Seq<Fault> {
    match p {
        CommandProbe::NotFound => seq![
            Fault::ProcessorCommand {
                command,
                detail: if text::contains(program(command), "/"@) {
                    "file not found at '"@ + program(command) + "'"@
                } else {
                    "'"@ + program(command) + "' not found in $PATH or filesystem"@
                },
            },
        ],
        CommandProbe::NoMetadata { resolved, error } => seq![
            Fault::ProcessorCommand {
                command,
                detail: "cannot stat '"@ + resolved@ + "': "@ + error@,
            },
        ],
        CommandProbe::Directory { resolved } => seq![
            Fault::ProcessorCommand {
                command,
                detail: "'"@ + resolved@ + "' is a directory, not an executable file"@,
            },
        ],
        CommandProbe::File { resolved, mode } => if executable(mode) {
            Seq::empty()
        } else {
            seq![
                Fault::ProcessorCommand {
                    command,
                    detail: "'"@ + resolved@ + "' exists but has no execute permission (mode "@
                        + number::octal(mode as nat) + "); run: chmod +x '"@ + resolved@ + "'"@,
                },
            ]
        },
    }
}

/// The directory that must hold the database file.
pub open spec fn db_parent(db_path: Seq<char>) -> Option<Seq<char>> {
    match paths::parent(db_path) {
        Some(d) => if d.len() > 0 {
            Some(d)
        } else {
            None
        },
        None => None,
    }
}

pub open spec fn db_faults(db_path: Seq<char>, p: DbProbe) -> Seq<Fault> {
    match db_parent(db_path) {
        None => seq![Fault::DbPath { db_path, detail: "path has no parent directory component"@ }],
        Some(d) => match p {
            DbProbe::ParentNotCreated(e) => seq![
                Fault::DbPath {
                    db_path,
                    detail: "cannot create parent directory '"@ + d + "': "@ + e@,
                },
            ],
            DbProbe::NotOpened(e) => seq![
                Fault::DbPath { db_path, detail: "SQLite cannot open database: "@ + e@ },
            ],
            DbProbe::NotAnswering(e) => seq![
                Fault::DbPath { db_path, detail: "SQLite connection smoke-test failed: "@ + e@ },
            ],
            DbProbe::Usable => Seq::empty(),
        },
    }
}

pub open spec fn log_faults(log_dir: Seq<char>, error: Option<String>) -> Seq<Fault> {
    match error {
        Some(e) => seq![Fault::LogDir { log_dir, detail: "cannot create directory: "@ + e@ }],
        None => Seq::empty(),
    }
}

/// A job that is tried at all needs one delay for each retry.
pub open spec fn backoff_faults(w: WorkerConfig) -> Seq<Fault> {
    if w.max_attempts > 0 && w.backoff_secs@.len() < w.max_attempts - 1 {
        seq![
            Fault::BackoffTooShort {
                len: w.backoff_secs@.len(),
                len_plural: if w.backoff_secs@.len() == 1 {
                    "y"@
                } else {
                    "ies"@
                },
                needed: (w.max_attempts - 1) as nat,
                max_attempts: w.max_attempts as nat,
            },
        ]
    } else {
        Seq::empty()
    }
}

/// Every fault of a configuration, in the order of the checks.
pub open spec fn all_faults(cfg: Config, p: Probes) -> Seq<Fault> {
    vault_faults(cfg.paths.vault_root@, p.vault) + sources_faults(
        cfg.paths.sources_dir@,
        p.sources,
    ) + sources_in_vault(vault_place(p.vault), sources_place(p.sources)) + agent_faults(
        cfg.paths.agent_root@,
        p.agent,
    ) + agent_in_vault(vault_place(p.vault), agent_place(p.agent)) + agent_off_sources(
        sources_place(p.sources),
        agent_place(p.agent),
    ) + command_faults(cfg.processor.command@, p.command) + db_faults(cfg.paths.db_path@, p.db)
        + log_faults(cfg.paths.log_dir@, p.log_dir_error) + backoff_faults(cfg.worker)
}

fn followed_by(a: &str, b: &str) -> (r: String)
    ensures
        r@ == a@ + b@,
{
    let mut s = String::from_str(a);
    s.append(b);
    s
}

fn check_vault_root(path: &str, p: &VaultProbe, errors: &mut Vec<ConfigError>)
    ensures
        faults(final(errors)@) == faults(old(errors)@) + vault_faults(path@, *p),
{
    let detail = match p {
        VaultProbe::Inaccessible(e) => followed_by(
            "does not exist or cannot be accessed: ",
            e.as_str(),
        ),
        VaultProbe::NotADirectory => String::from_str("path exists but is not a directory"),
        VaultProbe::Unreadable(e) => followed_by("directory is not readable: ", e.as_str()),
        VaultProbe::Unwritable(e) => followed_by("directory is not writable: ", e.as_str()),
        VaultProbe::NotCanonical(e) => followed_by("cannot canonicalize path: ", e.as_str()),
        VaultProbe::Usable(_) => {
            assert(faults(errors@) + Seq::<Fault>::empty() =~= faults(errors@));
            return ;
        },
    };
    errors.push(ConfigError::VaultRoot { path: String::from_str(path), detail });
    assert(faults(errors@) =~= faults(old(errors)@) + vault_faults(path@, *p));
}

fn check_sources_dir(path: &str, p: &SourcesProbe, errors: &mut Vec<ConfigError>)
    ensures
        faults(final(errors)@) == faults(old(errors)@) + sources_faults(path@, *p),
{
    let detail = match p {
        SourcesProbe::Inaccessible(e) => followed_by(
            "does not exist or cannot be accessed: ",
            e.as_str(),
        ),
        SourcesProbe::NotADirectory => String::from_str("path exists but is not a directory"),
        SourcesProbe::Unreadable(e) => followed_by("directory is not readable: ", e.as_str()),
        SourcesProbe::NotCanonical(e) => followed_by("cannot canonicalize path: ", e.as_str()),
        SourcesProbe::Usable(_) => {
            assert(faults(errors@) + Seq::<Fault>::empty() =~= faults(errors@));
            return ;
        },
    };
    errors.push(ConfigError::SourcesDir { path: String::from_str(path), detail });
    assert(faults(errors@) =~= faults(old(errors)@) + sources_faults(path@, *p));
}

fn check_agent_root(path: &str, p: &AgentProbe, errors: &mut Vec<ConfigError>)
    ensures
        faults(final(errors)@) == faults(old(errors)@) + agent_faults(path@, *p),
{
    let detail = match p {
        AgentProbe::Uncreatable(e) => followed_by(
            "directory does not exist and could not be created: ",
            e.as_str(),
        ),
        AgentProbe::Inaccessible(e) => followed_by("cannot access: ", e.as_str()),
        AgentProbe::NotADirectory => String::from_str("path exists but is not a directory"),
        AgentProbe::Unreadable(e) => followed_by("directory is not readable: ", e.as_str()),
        AgentProbe::Unwritable(e) => followed_by("directory is not writable: ", e.as_str()),
        AgentProbe::NotCanonical(e) => followed_by("cannot canonicalize path: ", e.as_str()),
        AgentProbe::Usable(_) => {
            assert(faults(errors@) + Seq::<Fault>::empty() =~= faults(errors@));
            return ;
        },
    };
    errors.push(ConfigError::AgentRoot { path: String::from_str(path), detail });
    assert(faults(errors@) =~= faults(old(errors)@) + agent_faults(path@, *p));
}

fn check_containment(
    vault: &VaultProbe,
    sources: &SourcesProbe,
    errors: &mut Vec<ConfigError>,
)
    ensures
        faults(final(errors)@) == faults(old(errors)@) + sources_in_vault(
            vault_place(*vault),
            sources_place(*sources),
        ),
{
    if let (VaultProbe::Usable(v), SourcesProbe::Usable(s)) = (vault, sources) {
        if !is_under(s.as_str(), v.as_str()) {
            errors.push(
                ConfigError::SourcesNotInsideVault {
                    sources_dir: s.clone(),
                    vault_root: v.clone(),
                },
            );
        } else if equal_paths(s.as_str(), v.as_str()) {
            errors.push(
                ConfigError::SourcesSameAsVault { sources_dir: s.clone(), vault_root: v.clone() },
            );
        }
    }
    assert(faults(errors@) =~= faults(old(errors)@) + sources_in_vault(
        vault_place(*vault),
        sources_place(*sources),
    ));
}

fn check_agent_place(
    vault: &VaultProbe,
    sources: &SourcesProbe,
    agent: &AgentProbe,
    errors: &mut Vec<ConfigError>,
)
    ensures
        faults(final(errors)@) == faults(old(errors)@) + agent_in_vault(
            vault_place(*vault),
            agent_place(*agent),
        ) + agent_off_sources(sources_place(*sources), agent_place(*agent)),
{
    if let (VaultProbe::Usable(v), AgentProbe::Usable(a)) = (vault, agent) {
        if !is_under(a.as_str(), v.as_str()) || equal_paths(a.as_str(), v.as_str()) {
            errors.push(
                ConfigError::AgentRootNotInsideVault {
                    agent_root: a.clone(),
                    vault_root: v.clone(),
                },
            );
        }
    }
    assert(faults(errors@) =~= faults(old(errors)@) + agent_in_vault(
        vault_place(*vault),
        agent_place(*agent),
    ));
    let ghost middle = faults(errors@);
    if let (SourcesProbe::Usable(s), AgentProbe::Usable(a)) = (sources, agent) {
        if equal_paths(s.as_str(), a.as_str()) || is_under(a.as_str(), s.as_str()) || is_under(
            s.as_str(),
            a.as_str(),
        ) {
            errors.push(
                ConfigError::AgentRootOverlapsSources {
                    agent_root: a.clone(),
                    sources_dir: s.clone(),
                },
            );
        }
    }
    assert(faults(errors@) =~= middle + agent_off_sources(
        sources_place(*sources),
        agent_place(*agent),
    ));
}

fn check_processor_command(command: &str, p: &CommandProbe, errors: &mut Vec<ConfigError>)
    ensures
        faults(final(errors)@) == faults(old(errors)@) + command_faults(command@, *p),
{
    let detail = match p {
        CommandProbe::NotFound => {
            let name = program_of(command);
            if has_text(name, "/") {
                let mut s = String::from_str("file not found at '");
                s.append(name);
                s.append("'");
                s
            } else {
                let mut s = String::from_str("'");
                s.append(name);
                s.append("' not found in $PATH or filesystem");
                s
            }
        },
        CommandProbe::NoMetadata { resolved, error } => {
            let mut s = String::from_str("cannot stat '");
            s.append(resolved.as_str());
            s.append("': ");
            s.append(error.as_str());
            s
        },
        CommandProbe::Directory { resolved } => {
            let mut s = String::from_str("'");
            s.append(resolved.as_str());
            s.append("' is a directory, not an executable file");
            s
        },
        CommandProbe::File { resolved, mode } => {
            if *mode & 0o111u32 != 0 {
                assert(faults(errors@) + Seq::<Fault>::empty() =~= faults(errors@));
                return ;
            }
            let mut s = String::from_str("'");
            s.append(resolved.as_str());
            s.append("' exists but has no execute permission (mode ");
            s.append(octal_text(*mode).as_str());
            s.append("); run: chmod +x '");
            s.append(resolved.as_str());
            s.append("'");
            s
        },
    };
    errors.push(ConfigError::ProcessorCommand { command: String::from_str(command), detail });
    assert(faults(errors@) =~= faults(old(errors)@) + command_faults(command@, *p));
}

/// The directory that must hold the database file, where the path names one.
pub fn db_directory(db_path: &str) -> (r: Option<String>)
    ensures
        match r {
            Some(d) => db_parent(db_path@) == Some(d@),
            None => db_parent(db_path@) is None,
        },
{
    match parent_of(db_path) {
        Some(d) => if d.as_str().is_empty() {
            None
        } else {
            Some(d)
        },
        None => None,
    }
}

fn check_db_path(db_path: &str, p: &DbProbe, errors: &mut Vec<ConfigError>)
    ensures
        faults(final(errors)@) == faults(old(errors)@) + db_faults(db_path@, *p),
{
    let detail = match db_directory(db_path) {
        None => String::from_str("path has no parent directory component"),
        Some(d) => match p {
            DbProbe::ParentNotCreated(e) => {
                let mut s = String::from_str("cannot create parent directory '");
                s.append(d.as_str());
                s.append("': ");
                s.append(e.as_str());
                s
            },
            DbProbe::NotOpened(e) => followed_by("SQLite cannot open database: ", e.as_str()),
            DbProbe::NotAnswering(e) => followed_by(
                "SQLite connection smoke-test failed: ",
                e.as_str(),
            ),
            DbProbe::Usable => {
                assert(faults(errors@) + Seq::<Fault>::empty() =~= faults(errors@));
                return ;
            },
        },
    };
    errors.push(ConfigError::DbPath { db_path: String::from_str(db_path), detail });
    assert(faults(errors@) =~= faults(old(errors)@) + db_faults(db_path@, *p));
}

fn check_log_dir(log_dir: &str, error: &Option<String>, errors: &mut Vec<ConfigError>)
    ensures
        faults(final(errors)@) == faults(old(errors)@) + log_faults(log_dir@, *error),
{
    if let Some(e) = error {
        errors.push(
            ConfigError::LogDir {
                log_dir: String::from_str(log_dir),
                detail: followed_by("cannot create directory: ", e.as_str()),
            },
        );
    }
    assert(faults(errors@) =~= faults(old(errors)@) + log_faults(log_dir@, *error));
}

fn check_backoff(worker: &WorkerConfig, errors: &mut Vec<ConfigError>)
    ensures
        faults(final(errors)@) == faults(old(errors)@) + backoff_faults(*worker),
{
    let len: usize = worker.backoff_secs.len();
    if worker.max_attempts > 0 && len < worker.max_attempts as usize - 1 {
        let len_plural: &'static str = if len == 1 {
            "y"
        } else {
            "ies"
        };
        errors.push(
            ConfigError::BackoffTooShort {
                len,
                len_plural,
                needed: worker.max_attempts as usize - 1,
                max_attempts: worker.max_attempts,
            },
        );
    }
    assert(faults(errors@) =~= faults(old(errors)@) + backoff_faults(*worker));
}

impl Config {
    /// Runs every startup check against the answers of the file system and
    /// collects all faults, in the order of the checks.
    pub fn validate(&self, p: &Probes) -> (r: Result<(), Vec<ConfigError>>)
        ensures
            match r {
                Ok(()) => all_faults(*self, *p).len() == 0,
                Err(es) => faults(es@) == all_faults(*self, *p) && es@.len() > 0,
            },
    {
        let mut errors: Vec<ConfigError> = Vec::new();
        assert(faults(errors@) =~= Seq::<Fault>::empty());
        check_vault_root(self.paths.vault_root.as_str(), &p.vault, &mut errors);
        assert(faults(errors@) =~= vault_faults(self.paths.vault_root@, p.vault));
        check_sources_dir(self.paths.sources_dir.as_str(), &p.sources, &mut errors);
        check_containment(&p.vault, &p.sources, &mut errors);
        check_agent_root(self.paths.agent_root.as_str(), &p.agent, &mut errors);
        check_agent_place(&p.vault, &p.sources, &p.agent, &mut errors);
        check_processor_command(self.processor.command.as_str(), &p.command, &mut errors);
        check_db_path(self.paths.db_path.as_str(), &p.db, &mut errors);
        check_log_dir(self.paths.log_dir.as_str(), &p.log_dir_error, &mut errors);
        check_backoff(&self.worker, &mut errors);
        assert(faults(errors@).len() == errors@.len());
        if errors.len() == 0 {
            Ok(())
        } else {
            Err(errors)
        }
    }

    /// Expands what was read and checks it: a configuration that is ready to be
    /// used, or the listing of all its faults.
    pub fn load(read: Config, home: Option<&str>, p: &Probes) -> (r: Result<Config, String>)
        ensures
            match r {
                Ok(c) => expanded(read, home_view(home), c) && all_faults(c, *p).len() == 0,
                Err(m) => exists|c: Config|
                    expanded(read, home_view(home), c) && all_faults(c, *p).len() > 0 && m@
                        == listing(#[trigger] all_faults(c, *p)),
            },
    {
        let cfg = expand_all_paths(read, home);
        match cfg.validate(p) {
            Ok(()) => Ok(cfg),
            Err(es) => {
                assert(faults(es@).len() == es@.len());
                Err(ConfigErrors(es).message())
            },
        }
    }
}

// ---------------------------------------------------------------- laws

/// In a configuration that passes the checks, the sources directory and the
/// agent's directory are strictly inside the vault, and no path lies in both.
pub proof fn law_valid_directories_are_disjoint(cfg: Config, p: Probes, path: Seq<char>)
    requires
        all_faults(cfg, p).len() == 0,
    ensures
        p.vault matches VaultProbe::Usable(v) && p.sources matches SourcesProbe::Usable(s)
            && p.agent matches AgentProbe::Usable(a) && paths::inside(s@, v@) && paths::inside(
            a@,
            v@,
        ) && !(paths::under(path, s@) && paths::under(path, a@)),
{
    let v = vault_place(p.vault);
    let s = sources_place(p.sources);
    let a = agent_place(p.agent);
    assert(vault_faults(cfg.paths.vault_root@, p.vault).len() == 0);
    assert(sources_faults(cfg.paths.sources_dir@, p.sources).len() == 0);
    assert(agent_faults(cfg.paths.agent_root@, p.agent).len() == 0);
    assert(sources_in_vault(v, s).len() == 0);
    assert(agent_in_vault(v, a).len() == 0);
    assert(agent_off_sources(s, a).len() == 0);
    let x = paths::components(s->0);
    let y = paths::components(a->0);
    let z = paths::components(path);
    if x.is_prefix_of(z) && y.is_prefix_of(z) {
        assert(forall|i: int| 0 <= i < x.len() ==> x[i] == z.subrange(0, x.len() as int)[i]);
        assert(forall|i: int| 0 <= i < y.len() ==> y[i] == z.subrange(0, y.len() as int)[i]);
        if x.len() <= y.len() {
            assert(x =~= y.subrange(0, x.len() as int));
        } else {
            assert(y =~= x.subrange(0, y.len() as int));
        }
    }
}

/// Expanding an expanded path changes nothing, where the home directory is an
/// absolute path.
pub proof fn law_expansion_is_idempotent(path: Seq<char>, home: Option<Seq<char>>)
    requires
        home matches Some(h) ==> paths::absolute(h),
    ensures
        tilde(tilde(path, home), home) == tilde(path, home),
{
    reveal_strlit("~");
    reveal_strlit("~/");
    if let Some(h) = home {
        let once = tilde(path, home);
        if path == "~"@ || text::starts_with(path, "~/"@) {
            assert(once[0] == '/');
            assert("~"@[0] == '~');
            if text::starts_with(once, "~/"@) {
                assert(once.subrange(0, 2)[0] == once[0]);
                assert("~/"@[0] == '~');
            }
        }
    }
}

} // verus!
