//! The policy boundary between the agent and the vault.
//!
//! Every vault operation of the agent passes through here. Commands that read are
//! passed on; commands that write are checked, recorded in the plan, and passed on
//! only when the run is to change the vault; all else is refused.

use vstd::prelude::*;
use vstd::string::*;

use crate::json;
use crate::json::{object_text, Field};
use crate::paths;
use crate::paths::{file_name_of, is_under, join_path, normalise_lexical};
use crate::plan::PlanEntry;
use crate::prompt;
use crate::prompt::{found_file, Candidate};
use crate::text;
use crate::text::{
    chars_of, copied, has_prefix, has_text, joined_literals, lowered, quote, same_text,
    split_at_first, trimmed,
};

verus! {

// ---------------------------------------------------------------- commands

/// The commands that only read.
pub open spec fn read_commands() -> Seq<Seq<char>> {
    seq![
        "file"@,
        "files"@,
        "folder"@,
        "folders"@,
        "read"@,
        "outline"@,
        "search"@,
        "search:context"@,
        "backlinks"@,
        "links"@,
        "unresolved"@,
        "orphans"@,
        "deadends"@,
        "tags"@,
        "aliases"@,
        "properties"@,
        "property:read"@,
        "daily:path"@,
        "daily:read"@,
        "bases"@,
        "base:views"@,
        "base:query"@,
        "bookmarks"@,
        "diff"@,
        "history"@,
        "history:list"@,
        "history:read"@,
        "version"@,
        "help"@,
    ]
}

/// The commands that only read.
pub fn read_commands_list() -> (r: Vec<&'static str>)
    ensures
        text::literals(r@) == read_commands(),
{
    let r: Vec<&'static str> = vec![
        "file",
        "files",
        "folder",
        "folders",
        "read",
        "outline",
        "search",
        "search:context",
        "backlinks",
        "links",
        "unresolved",
        "orphans",
        "deadends",
        "tags",
        "aliases",
        "properties",
        "property:read",
        "daily:path",
        "daily:read",
        "bases",
        "base:views",
        "base:query",
        "bookmarks",
        "diff",
        "history",
        "history:list",
        "history:read",
        "version",
        "help",
    ];
    assert(text::literals(r@) =~= read_commands());
    r
}

/// The commands that change the vault.
pub open spec fn write_commands() -> Seq<Seq<char>> {
    seq![
        "create"@,
        "append"@,
        "prepend"@,
        "move"@,
        "rename"@,
        "delete"@,
        "property:set"@,
        "property:remove"@,
        "daily:append"@,
        "daily:prepend"@,
        "bookmark"@,
        "base:create"@,
    ]
}

/// The commands that change the vault.
pub fn write_commands_list() -> (r: Vec<&'static str>)
    ensures
        text::literals(r@) == write_commands(),
{
    let r: Vec<&'static str> = vec![
        "create",
        "append",
        "prepend",
        "move",
        "rename",
        "delete",
        "property:set",
        "property:remove",
        "daily:append",
        "daily:prepend",
        "bookmark",
        "base:create",
    ];
    assert(text::literals(r@) =~= write_commands());
    r
}

/// The commands that are never passed on.
pub open spec fn blocked_commands() -> Seq<Seq<char>> {
    seq![
        "eval"@,
        "history:restore"@,
        "plugin:enable"@,
        "plugin:disable"@,
        "plugin:install"@,
        "plugin:uninstall"@,
        "plugin:reload"@,
        "plugins:restrict"@,
        "publish:add"@,
        "publish:remove"@,
        "sync"@,
        "reload"@,
        "restart"@,
        "devtools"@,
        "dev:screenshot"@,
    ]
}

/// The commands that are never passed on.
pub fn blocked_commands_list() -> (r: Vec<&'static str>)
    ensures
        text::literals(r@) == blocked_commands(),
{
    let r: Vec<&'static str> = vec![
        "eval",
        "history:restore",
        "plugin:enable",
        "plugin:disable",
        "plugin:install",
        "plugin:uninstall",
        "plugin:reload",
        "plugins:restrict",
        "publish:add",
        "publish:remove",
        "sync",
        "reload",
        "restart",
        "devtools",
        "dev:screenshot",
    ];
    assert(text::literals(r@) =~= blocked_commands());
    r
}

/// The commands that may be passed on, in alphabetical order.
pub open spec fn allowlist() -> Seq<Seq<char>> {
    seq![
        "aliases"@,
        "append"@,
        "backlinks"@,
        "base:create"@,
        "base:query"@,
        "base:views"@,
        "bases"@,
        "bookmark"@,
        "bookmarks"@,
        "create"@,
        "daily:append"@,
        "daily:path"@,
        "daily:prepend"@,
        "daily:read"@,
        "deadends"@,
        "delete"@,
        "diff"@,
        "file"@,
        "files"@,
        "folder"@,
        "folders"@,
        "help"@,
        "history"@,
        "history:list"@,
        "history:read"@,
        "links"@,
        "move"@,
        "orphans"@,
        "outline"@,
        "prepend"@,
        "properties"@,
        "property:read"@,
        "property:remove"@,
        "property:set"@,
        "read"@,
        "rename"@,
        "search"@,
        "search:context"@,
        "tags"@,
        "unresolved"@,
        "version"@,
    ]
}

/// The commands that may be passed on, in alphabetical order.
pub fn allowlist_list() -> (r: Vec<&'static str>)
    ensures
        text::literals(r@) == allowlist(),
{
    let r: Vec<&'static str> = vec![
        "aliases",
        "append",
        "backlinks",
        "base:create",
        "base:query",
        "base:views",
        "bases",
        "bookmark",
        "bookmarks",
        "create",
        "daily:append",
        "daily:path",
        "daily:prepend",
        "daily:read",
        "deadends",
        "delete",
        "diff",
        "file",
        "files",
        "folder",
        "folders",
        "help",
        "history",
        "history:list",
        "history:read",
        "links",
        "move",
        "orphans",
        "outline",
        "prepend",
        "properties",
        "property:read",
        "property:remove",
        "property:set",
        "read",
        "rename",
        "search",
        "search:context",
        "tags",
        "unresolved",
        "version",
    ];
    assert(text::literals(r@) =~= allowlist());
    r
}

/// What kind of command a name stands for.
#[derive(Debug, Clone, Copy, PartialEq, Eq, Structural)]
pub enum Classification {
    Read,
    Write,
    Blocked,
    Unknown,
}

/// What kind of command a name stands for; a blocked name is blocked whatever else
/// it may be.
pub open spec fn class_of(cmd: Seq<char>) -> Classification {
    if blocked_commands().contains(cmd) {
        Classification::Blocked
    } else if read_commands().contains(cmd) {
        Classification::Read
    } else if write_commands().contains(cmd) {
        Classification::Write
    } else {
        Classification::Unknown
    }
}

/// What kind of command a name stands for.
pub fn classify(cmd: &str) -> (r: Classification)
    ensures
        r == class_of(cmd@),
{
    if text::is_listed(cmd, &blocked_commands_list()) {
        Classification::Blocked
    } else if text::is_listed(cmd, &read_commands_list()) {
        Classification::Read
    } else if text::is_listed(cmd, &write_commands_list()) {
        Classification::Write
    } else {
        Classification::Unknown
    }
}

// ---------------------------------------------------------------- environment

/// The environment that the daemon gives the wrapper; a variable that is not set is
/// absent.
#[derive(Debug, Clone)]
pub struct WrapperEnv {
    /// `KB_AGENT_MODE`
    pub agent_mode: Option<String>,
    /// `KB_PLAN_FILE`
    pub plan_file: Option<String>,
    /// `KB_VAULT_ROOT`
    pub vault_root: Option<String>,
    /// `KB_SOURCES_DIR`
    pub sources_dir: Option<String>,
    /// `KB_AGENT_ROOT`
    pub agent_root: Option<String>,
}

/// Whether the vault is changed or only the plan is written.
#[derive(Debug, Clone, Copy, PartialEq, Eq, Structural)]
pub enum Mode {
    Shadow,
    Apply,
}

/// The word for a mode.
pub open spec fn mode_word(m: Mode) -> Seq<char> {
    match m {
        Mode::Shadow => "shadow"@,
        Mode::Apply => "apply"@,
    }
}

impl Mode {
    /// The word for this mode.
    pub fn as_str(&self) -> (r: &'static str)
        ensures
            r@ == mode_word(*self),
    {
        match self {
            Mode::Shadow => "shadow",
            Mode::Apply => "apply",
        }
    }
}

/// The value of a variable, empty where it is not set.
pub open spec fn value_of(v: Option<String>) -> Seq<char> {
    match v {
        Some(s) => s@,
        None => Seq::empty(),
    }
}

/// The mode that the environment asks for, in any case of letters and with white
/// space around it; `apply` where it asks for none.
pub open spec fn mode_asked(v: Option<String>) -> Result<Mode, Seq<char>> {
    let word = text::lower_ascii(
        text::trim(
            match v {
                Some(s) => s@,
                None => "apply"@,
            },
        ),
    );
    if word == "shadow"@ {
        Ok(Mode::Shadow)
    } else if word == "apply"@ {
        Ok(Mode::Apply)
    } else {
        Err("KB_AGENT_MODE must be 'shadow' or 'apply', got "@ + text::quoted(word))
    }
}

/// Whether an executable result is a specified one.
pub open spec fn same_mode(r: Result<Mode, String>, s: Result<Mode, Seq<char>>) -> bool {
    match s {
        Ok(m) => r == Ok::<Mode, String>(m),
        Err(t) => r matches Err(e) && e@ == t,
    }
}

/// The mode that the environment asks for.
pub fn parse_mode(v: &Option<String>) -> (r: Result<Mode, String>)
    ensures
        same_mode(r, mode_asked(*v)),
{
    let raw = match v {
        Some(s) => s.as_str(),
        None => "apply",
    };
    let word = lowered(trimmed(raw));
    if same_text(word.as_str(), "shadow") {
        Ok(Mode::Shadow)
    } else if same_text(word.as_str(), "apply") {
        Ok(Mode::Apply)
    } else {
        let mut m = String::from_str("KB_AGENT_MODE must be 'shadow' or 'apply', got ");
        m.append(quote(word.as_str()).as_str());
        Err(m)
    }
}

/// The value of a variable without white space around it, empty where it is not
/// set.
fn plain_value(v: &Option<String>) -> (r: String)
    ensures
        r@ == text::trim(value_of(*v)),
{
    match v {
        Some(s) => String::from_str(trimmed(s.as_str())),
        None => {
            let e = String::new();
            String::from_str(trimmed(e.as_str()))
        },
    }
}

/// The complaint where no plan file is named.
pub open spec fn no_plan_file() -> Seq<char> {
    "KB_PLAN_FILE not set; the daemon must export it before spawning the agent subprocess."@
}

/// The plan file that the environment names, or the complaint.
pub fn plan_file_path(v: &Option<String>) -> (r: Result<String, String>)
    ensures
        match r {
            Ok(p) => p@ == text::trim(value_of(*v)) && p@.len() > 0,
            Err(m) => text::trim(value_of(*v)).len() == 0 && m@ == no_plan_file(),
        },
{
    let p = plain_value(v);
    if p.as_str().is_empty() {
        Err(
            String::from_str(
                "KB_PLAN_FILE not set; the daemon must export it before spawning the agent subprocess.",
            ),
        )
    } else {
        Ok(p)
    }
}

// ---------------------------------------------------------------- tokens

/// Whether `c` is an ASCII letter.
pub open spec fn ascii_letter(c: char) -> bool {
    'a' <= c <= 'z' || 'A' <= c <= 'Z'
}

/// What is wrong with the form of a token. No token of a write command may start
/// with a dash; of a read command, none may look like a flag.
pub open spec fn token_fault(tok: Seq<char>, write: bool) -> Option<Seq<char>> {
    if text::starts_with(tok, "--"@) {
        Some(
            "argument "@ + text::quoted(tok)
                + " uses POSIX-style syntax (--key value).  Obsidian CLI requires `key=value` (no dashes).  Example: `kb-obsidian create path=Notes/Foo.md content=hi`."@,
        )
    } else if tok.len() > 0 && tok[0] == '-' && (write || (tok.len() >= 2 && ascii_letter(
        tok[1],
    ))) {
        Some(
            "argument "@ + text::quoted(tok)
                + " uses POSIX-style syntax (-x).  Obsidian CLI requires `key=value` (no dashes)."@,
        )
    } else {
        None
    }
}

/// The first fault of form, from token `from` on.
pub open spec fn syntax_fault(args: Seq<Seq<char>>, write: bool, from: int) -> Option<Seq<char>>
    decreases args.len() - from,
{
    if from < 0 || from >= args.len() {
        None
    } else {
        match token_fault(args[from], write) {
            Some(m) => Some(m),
            None => syntax_fault(args, write, from + 1),
        }
    }
}

fn check_token(tok: &str, write: bool) -> (r: Option<String>)
    ensures
        json::text_view(r) == token_fault(tok@, write),
{
    let v = chars_of(tok);
    if has_prefix(tok, "--") {
        let mut m = String::from_str("argument ");
        m.append(quote(tok).as_str());
        m.append(
            " uses POSIX-style syntax (--key value).  Obsidian CLI requires `key=value` (no dashes).  Example: `kb-obsidian create path=Notes/Foo.md content=hi`.",
        );
        return Some(m);
    }
    if v.len() > 0 && v[0] == '-' && (write || (v.len() >= 2 && (('a' <= v[1] && v[1] <= 'z') || (
    'A' <= v[1] && v[1] <= 'Z')))) {
        let mut m = String::from_str("argument ");
        m.append(quote(tok).as_str());
        m.append(
            " uses POSIX-style syntax (-x).  Obsidian CLI requires `key=value` (no dashes).",
        );
        return Some(m);
    }
    None
}

/// The first fault of form among the tokens of a command.
pub fn check_arg_syntax(args: &Vec<String>, write: bool) -> (r: Option<String>)
    ensures
        json::text_view(r) == syntax_fault(text::views(args@), write, 0),
{
    let ghost vs = text::views(args@);
    let mut i: usize = 0;
    while i < args.len()
        invariant
            vs == text::views(args@),
            i <= args@.len(),
            syntax_fault(vs, write, 0) == syntax_fault(vs, write, i as int),
        decreases args@.len() - i,
    {
        assert(vs[i as int] == args@[i as int]@);
        if let Some(m) = check_token(args[i].as_str(), write) {
            return Some(m);
        }
        i = i + 1;
    }
    None
}

// ---------------------------------------------------------------- places

/// The directories that bound what may be written, in normal form.
pub struct Zone {
    pub vault: Seq<char>,
    pub sources: Seq<char>,
    pub agent: Option<Seq<char>>,
}

/// The directories that the environment sets; none where the vault or the sources
/// directory is not set.
pub open spec fn zone_of(env: WrapperEnv) -> Option<Zone> {
    let v = text::trim(value_of(env.vault_root));
    let s = text::trim(value_of(env.sources_dir));
    let a = text::trim(value_of(env.agent_root));
    if v.len() == 0 || s.len() == 0 {
        None
    } else {
        Some(
            Zone {
                vault: paths::normal(v),
                sources: paths::normal(s),
                agent: if a.len() == 0 {
                    None
                } else {
                    Some(paths::normal(a))
                },
            },
        )
    }
}

/// The keys whose values name places in the vault, in the order in which they are
/// checked.
pub open spec fn path_keys() -> Seq<Seq<char>> {
    seq!["path"@, "to"@, "file"@, "name"@]
}

/// The value of a token with the given key.
pub open spec fn token_value(tok: Seq<char>, key: Seq<char>) -> Option<Seq<char>> {
    match text::split_once(tok, '=') {
        Some((k, v)) => if k.len() > 0 && text::trim(k) == key {
            Some(v)
        } else {
            None
        },
        None => None,
    }
}

/// Whether the value of a key names a place: `path` and `to` always do, `file` and
/// `name` may be the bare name of a note.
pub open spec fn names_place(key: Seq<char>, value: Seq<char>) -> bool {
    key == "path"@ || key == "to"@ || text::contains(value, "/"@)
}

/// The place that a value names, seen from the vault.
pub open spec fn place_of(value: Seq<char>, vault: Seq<char>) -> Seq<char> {
    paths::normal(paths::join(vault, value))
}

/// Whether a place may be written: inside the vault, outside the sources, and
/// inside the agent's directory where one is set.
pub open spec fn writable(place: Seq<char>, z: Zone) -> bool {
    paths::under(place, z.vault) && !paths::under(place, z.sources) && (z.agent matches Some(a)
        ==> paths::under(place, a))
}

/// The name by which the agent's directory is called in a hint.
pub open spec fn hint_of(agent: Seq<char>) -> Seq<char> {
    match paths::file_name(agent) {
        Some(n) => n,
        None => "KnowledgeBase"@,
    }
}

/// Why a value may not be written to.
pub open spec fn value_fault(value: Seq<char>, z: Zone) -> Option<Seq<char>> {
    let place = place_of(value, z.vault);
    let front = "path "@ + text::quoted(value) + " (resolved "@ + place;
    if !paths::under(place, z.vault) {
        Some(
            front + ") is outside vault_root "@ + z.vault
                + ".  All vault paths must be relative to or inside the vault root."@,
        )
    } else if paths::under(place, z.sources) {
        Some(
            front + ") is inside sources_dir "@ + z.sources
                + ".  Writes to sources_dir are forbidden by Knowledge Builder policy."@,
        )
    } else {
        match z.agent {
            Some(a) => if paths::under(place, a) {
                None
            } else {
                Some(
                    front + ") is outside agent_root "@ + a
                        + ".  All agent mutations must be inside the agent's sandbox; prefix the path with '"@
                        + hint_of(a) + "/'.  Example: 'path="@ + hint_of(a) + "/Topics/Foo.md'."@,
                )
            },
            None => None,
        }
    }
}

/// The fault of one token for one key.
pub open spec fn token_place_fault(
    tok: Seq<char>,
    key: Seq<char>,
    z: Zone,
) -> Option<Seq<char>> {
    match token_value(tok, key) {
        Some(v) => if names_place(key, v) {
            value_fault(v, z)
        } else {
            None
        },
        None => None,
    }
}

/// The first fault of place for one key, from token `from` on.
pub open spec fn key_fault(
    args: Seq<Seq<char>>,
    key: Seq<char>,
    z: Zone,
    from: int,
) -> Option<Seq<char>>
    decreases args.len() - from,
{
    if from < 0 || from >= args.len() {
        None
    } else {
        match token_place_fault(args[from], key, z) {
            Some(m) => Some(m),
            None => key_fault(args, key, z, from + 1),
        }
    }
}

/// The first fault of place, from key `from` on.
pub open spec fn place_fault(args: Seq<Seq<char>>, z: Zone, from: int) -> Option<Seq<char>>
    decreases path_keys().len() - from,
{
    if from < 0 || from >= path_keys().len() {
        None
    } else {
        match key_fault(args, path_keys()[from], z, 0) {
            Some(m) => Some(m),
            None => place_fault(args, z, from + 1),
        }
    }
}

/// What is wrong with the places that a write command names.
pub open spec fn path_fault(args: Seq<Seq<char>>, env: WrapperEnv) -> Option<Seq<char>> {
    match zone_of(env) {
        Some(z) => place_fault(args, z, 0),
        None => None,
    }
}

/// The bounding directories as text.
struct Bounds {
    vault: String,
    sources: String,
    agent: Option<String>,
}

impl Bounds {
    spec fn zone(&self) -> Zone {
        Zone { vault: self.vault@, sources: self.sources@, agent: json::text_view(self.agent) }
    }
}

fn bounds_of(env: &WrapperEnv) -> (r: Option<Bounds>)
    ensures
        match r {
            Some(b) => zone_of(*env) == Some(b.zone()),
            None => zone_of(*env) is None,
        },
{
    let v = plain_value(&env.vault_root);
    let s = plain_value(&env.sources_dir);
    let a = plain_value(&env.agent_root);
    if v.as_str().is_empty() || s.as_str().is_empty() {
        return None;
    }
    let agent = if a.as_str().is_empty() {
        None
    } else {
        Some(normalise_lexical(a.as_str()))
    };
    Some(
        Bounds {
            vault: normalise_lexical(v.as_str()),
            sources: normalise_lexical(s.as_str()),
            agent,
        },
    )
}

/// The place that a value names, seen from the vault, in normal form.
pub fn resolve_in_vault(value: &str, vault_root: &str) -> (r: String)
    ensures
        r@ == place_of(value@, vault_root@),
{
    let joined = join_path(vault_root, value);
    normalise_lexical(joined.as_str())
}

fn check_value(value: &str, b: &Bounds) -> (r: Option<String>)
    ensures
        json::text_view(r) == value_fault(value@, b.zone()),
{
    let place = resolve_in_vault(value, b.vault.as_str());
    let mut m = String::from_str("path ");
    m.append(quote(value).as_str());
    m.append(" (resolved ");
    m.append(place.as_str());
    if !is_under(place.as_str(), b.vault.as_str()) {
        m.append(") is outside vault_root ");
        m.append(b.vault.as_str());
        m.append(".  All vault paths must be relative to or inside the vault root.");
        return Some(m);
    }
    if is_under(place.as_str(), b.sources.as_str()) {
        m.append(") is inside sources_dir ");
        m.append(b.sources.as_str());
        m.append(".  Writes to sources_dir are forbidden by Knowledge Builder policy.");
        return Some(m);
    }
    if let Some(a) = &b.agent {
        if !is_under(place.as_str(), a.as_str()) {
            let hint = match file_name_of(a.as_str()) {
                Some(n) => n,
                None => String::from_str("KnowledgeBase"),
            };
            m.append(") is outside agent_root ");
            m.append(a.as_str());
            m.append(
                ".  All agent mutations must be inside the agent's sandbox; prefix the path with '",
            );
            m.append(hint.as_str());
            m.append("/'.  Example: 'path=");
            m.append(hint.as_str());
            m.append("/Topics/Foo.md'.");
            return Some(m);
        }
    }
    None
}

fn check_key(args: &Vec<String>, key: &str, b: &Bounds) -> (r: Option<String>)
    ensures
        json::text_view(r) == key_fault(text::views(args@), key@, b.zone(), 0),
{
    let ghost vs = text::views(args@);
    let always = same_text(key, "path") || same_text(key, "to");
    let mut i: usize = 0;
    while i < args.len()
        invariant
            vs == text::views(args@),
            always == (key@ == "path"@ || key@ == "to"@),
            i <= args@.len(),
            key_fault(vs, key@, b.zone(), 0) == key_fault(vs, key@, b.zone(), i as int),
        decreases args@.len() - i,
    {
        assert(vs[i as int] == args@[i as int]@);
        if let Some((k, v)) = split_at_first(args[i].as_str(), '=') {
            if !k.is_empty() && same_text(trimmed(k), key) && (always || has_text(v, "/")) {
                if let Some(m) = check_value(v, b) {
                    return Some(m);
                }
            }
        }
        i = i + 1;
    }
    None
}

/// What is wrong with the places that a write command names, if anything is.
pub fn check_path_invariant(args: &Vec<String>, env: &WrapperEnv) -> (r: Option<String>)
    ensures
        json::text_view(r) == path_fault(text::views(args@), *env),
{
    let b = match bounds_of(env) {
        Some(b) => b,
        None => {
            return None;
        },
    };
    let ghost vs = text::views(args@);
    let keys: Vec<&'static str> = vec!["path", "to", "file", "name"];
    assert(text::literals(keys@) =~= path_keys());
    let mut i: usize = 0;
    while i < keys.len()
        invariant
            vs == text::views(args@),
            zone_of(*env) == Some(b.zone()),
            text::literals(keys@) == path_keys(),
            keys@.len() == path_keys().len(),
            i <= keys@.len(),
            place_fault(vs, b.zone(), 0) == place_fault(vs, b.zone(), i as int),
        decreases keys@.len() - i,
    {
        assert(path_keys()[i as int] == text::literals(keys@)[i as int]);
        if let Some(m) = check_key(args, keys[i], &b) {
            return Some(m);
        }
        i = i + 1;
    }
    None
}

// ---------------------------------------------------------------- the decision

/// What the wrapper does with a command line.
#[derive(Debug, Clone)]
pub enum Decision {
    /// Report the error and stop with code 1.
    Refuse(String),
    /// Pass the command on and return its code; nothing is recorded.
    PassRead { cmd: String, args: Vec<String> },
    /// Pass the command on, record it with its code, and return the code.
    PassWrite { plan_file: String, cmd: String, args: Vec<String> },
    /// Record the command without passing it on.
    RecordOnly { plan_file: String, cmd: String, args: Vec<String> },
}

/// A decision, over texts.
pub enum DecisionView {
    Refuse(Seq<char>),
    PassRead { cmd: Seq<char>, args: Seq<Seq<char>> },
    PassWrite { plan_file: Seq<char>, cmd: Seq<char>, args: Seq<Seq<char>> },
    RecordOnly { plan_file: Seq<char>, cmd: Seq<char>, args: Seq<Seq<char>> },
}

impl View for Decision {
    type V = DecisionView;

    open spec fn view(&self) -> DecisionView {
        match *self {
            Decision::Refuse(m) => DecisionView::Refuse(m@),
            Decision::PassRead { cmd, args } => DecisionView::PassRead {
                cmd: cmd@,
                args: text::views(args@),
            },
            Decision::PassWrite { plan_file, cmd, args } => DecisionView::PassWrite {
                plan_file: plan_file@,
                cmd: cmd@,
                args: text::views(args@),
            },
            Decision::RecordOnly { plan_file, cmd, args } => DecisionView::RecordOnly {
                plan_file: plan_file@,
                cmd: cmd@,
                args: text::views(args@),
            },
        }
    }
}

/// What the wrapper does with the words of a command line: the command, then its
/// tokens.
pub open spec fn decision(words: Seq<Seq<char>>, env: WrapperEnv) -> DecisionView {
    if words.len() == 0 {
        DecisionView::Refuse("usage: kb-obsidian <command> [key=value]... [flag]..."@)
    } else {
        let cmd = words[0];
        let args = words.skip(1);
        let plan_file = text::trim(value_of(env.plan_file));
        match mode_asked(env.agent_mode) {
            Err(m) => DecisionView::Refuse(m),
            Ok(mode) => if plan_file.len() == 0 {
                DecisionView::Refuse(no_plan_file())
            } else {
                match class_of(cmd) {
                    Classification::Blocked => DecisionView::Refuse(
                        "command "@ + text::quoted(cmd)
                            + " is blocked by kb-obsidian policy.  See docs/agent.md for the allowlist."@,
                    ),
                    Classification::Unknown => DecisionView::Refuse(
                        "command "@ + text::quoted(cmd)
                            + " is not in the kb-obsidian allowlist.  Use one of: "@ + text::join(
                            allowlist(),
                            ", "@,
                        ),
                    ),
                    Classification::Read => match syntax_fault(args, false, 0) {
                        Some(m) => DecisionView::Refuse(m),
                        None => DecisionView::PassRead { cmd, args },
                    },
                    Classification::Write => match syntax_fault(args, true, 0) {
                        Some(m) => DecisionView::Refuse(m),
                        None => match path_fault(args, env) {
                            Some(m) => DecisionView::Refuse(m),
                            None => match mode {
                                Mode::Apply => DecisionView::PassWrite { plan_file, cmd, args },
                                Mode::Shadow => DecisionView::RecordOnly { plan_file, cmd, args },
                            },
                        },
                    },
                }
            },
        }
    }
}

/// Decides what to do with the words of a command line.
pub fn decide(words: &Vec<String>, env: &WrapperEnv) -> (r: Decision)
    ensures
        r@ == decision(text::views(words@), *env),
{
    let ghost ws = text::views(words@);
    if words.len() == 0 {
        return Decision::Refuse(
            String::from_str("usage: kb-obsidian <command> [key=value]... [flag]..."),
        );
    }
    let cmd = words[0].clone();
    let args = copied(words, 1);
    assert(ws[0] == cmd@);
    assert(ws.skip(1) == text::views(args@));
    let mode = match parse_mode(&env.agent_mode) {
        Ok(m) => m,
        Err(m) => {
            return Decision::Refuse(m);
        },
    };
    let plan_file = match plan_file_path(&env.plan_file) {
        Ok(p) => p,
        Err(m) => {
            return Decision::Refuse(m);
        },
    };
    match classify(cmd.as_str()) {
        Classification::Blocked => {
            let mut m = String::from_str("command ");
            m.append(quote(cmd.as_str()).as_str());
            m.append(
                " is blocked by kb-obsidian policy.  See docs/agent.md for the allowlist.",
            );
            Decision::Refuse(m)
        },
        Classification::Unknown => {
            let mut m = String::from_str("command ");
            m.append(quote(cmd.as_str()).as_str());
            m.append(" is not in the kb-obsidian allowlist.  Use one of: ");
            m.append(joined_literals(&allowlist_list(), ", ").as_str());
            Decision::Refuse(m)
        },
        Classification::Read => match check_arg_syntax(&args, false) {
            Some(m) => Decision::Refuse(m),
            None => Decision::PassRead { cmd, args },
        },
        Classification::Write => {
            if let Some(m) = check_arg_syntax(&args, true) {
                return Decision::Refuse(m);
            }
            if let Some(m) = check_path_invariant(&args, env) {
                return Decision::Refuse(m);
            }
            match mode {
                Mode::Apply => Decision::PassWrite { plan_file, cmd, args },
                Mode::Shadow => Decision::RecordOnly { plan_file, cmd, args },
            }
        },
    }
}

// ---------------------------------------------------------------- the record

/// The entry for a command that was passed on and returned `rc`.
pub fn applied_entry(ts: i64, cmd: &str, args: &Vec<String>, rc: i32) -> (e: PlanEntry)
    ensures
        e.ts == ts,
        e.mode@ == "apply"@,
        e.cmd@ == cmd@,
        text::views(e.args@) == text::views(args@),
        e.applied == (rc == 0),
        e.exit_code == Some(rc),
{
    let copy = copied(args, 0);
    assert(text::views(args@).skip(0) =~= text::views(args@));
    PlanEntry {
        ts,
        mode: String::from_str("apply"),
        cmd: String::from_str(cmd),
        args: copy,
        applied: rc == 0,
        exit_code: Some(rc),
    }
}

/// The entry for a command that was only recorded.
pub fn shadow_entry(ts: i64, cmd: &str, args: &Vec<String>) -> (e: PlanEntry)
    ensures
        e.ts == ts,
        e.mode@ == "shadow"@,
        e.cmd@ == cmd@,
        text::views(e.args@) == text::views(args@),
        !e.applied,
        e.exit_code is None,
{
    let copy = copied(args, 0);
    assert(text::views(args@).skip(0) =~= text::views(args@));
    PlanEntry {
        ts,
        mode: String::from_str("shadow"),
        cmd: String::from_str(cmd),
        args: copy,
        applied: false,
        exit_code: None,
    }
}

/// The members of an error report.
pub open spec fn error_fields(message: Seq<char>) -> Seq<(Seq<char>, json::FieldView)> {
    seq![
        ("error"@, json::FieldView::Text(message)),
        ("status"@, json::FieldView::Text("error"@)),
        ("wrapper"@, json::FieldView::Text("kb-obsidian"@)),
    ]
}

/// The report of a refused command, as JSON.
pub fn error_report(message: &str) -> (r: String)
    ensures
        r@ == json::object_written(error_fields(message@)),
        json::reads_back(r@, error_fields(message@)),
{
    let mut fields: Vec<(String, Field)> = Vec::new();
    fields.push((String::from_str("error"), Field::Text(String::from_str(message))));
    fields.push((String::from_str("status"), Field::Text(String::from_str("error"))));
    fields.push((String::from_str("wrapper"), Field::Text(String::from_str("kb-obsidian"))));
    assert(json::fields_view(fields@) =~= error_fields(message@));
    proof {
        reveal_strlit("error");
        reveal_strlit("status");
        reveal_strlit("wrapper");
        json::lemma_plain_names(json::fields_view(fields@));
    }
    object_text(&fields)
}

/// The members of the report of a recorded command.
pub open spec fn shadow_fields(
    cmd: Seq<char>,
    args: Seq<Seq<char>>,
) -> Seq<(Seq<char>, json::FieldView)> {
    seq![
        ("args"@, json::FieldView::Texts(args)),
        ("cmd"@, json::FieldView::Text(cmd)),
        ("mode"@, json::FieldView::Text("shadow"@)),
        ("note"@, json::FieldView::Text("no mutation applied; recorded to plan"@)),
        ("status"@, json::FieldView::Text("ok"@)),
    ]
}

/// The report of a command that was recorded and not passed on, as JSON.
pub fn shadow_report(cmd: &str, args: &Vec<String>) -> (r: String)
    ensures
        r@ == json::object_written(shadow_fields(cmd@, text::views(args@))),
        json::reads_back(r@, shadow_fields(cmd@, text::views(args@))),
{
    let copy = copied(args, 0);
    assert(text::views(args@).skip(0) =~= text::views(args@));
    let mut fields: Vec<(String, Field)> = Vec::new();
    fields.push((String::from_str("args"), Field::Texts(copy)));
    fields.push((String::from_str("cmd"), Field::Text(String::from_str(cmd))));
    fields.push((String::from_str("mode"), Field::Text(String::from_str("shadow"))));
    fields.push(
        (
            String::from_str("note"),
            Field::Text(String::from_str("no mutation applied; recorded to plan")),
        ),
    );
    fields.push((String::from_str("status"), Field::Text(String::from_str("ok"))));
    assert(json::fields_view(fields@) =~= shadow_fields(cmd@, text::views(args@)));
    proof {
        reveal_strlit("args");
        reveal_strlit("cmd");
        reveal_strlit("mode");
        reveal_strlit("note");
        reveal_strlit("status");
        json::lemma_plain_names(json::fields_view(fields@));
    }
    object_text(&fields)
}

// ---------------------------------------------------------------- the program

/// The name by which the program behind the boundary is looked for.
pub fn obsidian_name(raw: Option<&str>) -> (r: &str)
    ensures
        match raw {
            Some(s) => r@ == s@,
            None => r@ == "obsidian"@,
        },
{
    match raw {
        Some(s) => s,
        None => "obsidian",
    }
}

/// The program behind the boundary: the first of the places at which a file is, or what
/// is said where there is none.
pub fn real_obsidian_bin(name: &str, found: &Vec<Candidate>) -> (r: Result<String, String>)
    ensures
        match r {
            Ok(p) => prompt::first_file(found@, 0) == Some(p@),
            Err(e) => prompt::first_file(found@, 0) is None && e@ == "Obsidian CLI '"@ + name@
                + "' not found on PATH.  Enable it in Obsidian: Settings → General → Command line interface."@,
        },
{
    match found_file(found) {
        Some(p) => Ok(String::from_str(p)),
        None => {
            let mut s = String::from_str("Obsidian CLI '");
            s.append(name);
            s.append(
                "' not found on PATH.  Enable it in Obsidian: Settings → General → Command line interface.",
            );
            Err(s)
        },
    }
}

// ---------------------------------------------------------------- laws

/// A write that is let through names only places that may be written: every value
/// of every token that names a place is inside the vault, outside the sources, and
/// inside the agent's directory where one is set.
pub proof fn law_accepted_write_is_confined(
    words: Seq<Seq<char>>,
    env: WrapperEnv,
    z: Zone,
    i: int,
    key: Seq<char>,
    value: Seq<char>,
)
    requires
        decision(words, env) is PassWrite || decision(words, env) is RecordOnly,
        zone_of(env) == Some(z),
        1 <= i < words.len(),
        path_keys().contains(key),
        token_value(words[i], key) == Some(value),
        names_place(key, value),
    ensures
        writable(place_of(value, z.vault), z),
{
    let args = words.skip(1);
    let k = choose|k: int| 0 <= k < path_keys().len() && path_keys()[k] == key;
    lemma_no_place_fault(args, z, 0, k);
    lemma_no_key_fault(args, key, z, 0, i - 1);
    assert(args[i - 1] == words[i]);
}

proof fn lemma_no_place_fault(args: Seq<Seq<char>>, z: Zone, from: int, k: int)
    requires
        0 <= from <= k < path_keys().len(),
        place_fault(args, z, from) is None,
    ensures
        key_fault(args, path_keys()[k], z, 0) is None,
    decreases k - from,
{
    if from < k {
        lemma_no_place_fault(args, z, from + 1, k);
    }
}

proof fn lemma_no_key_fault(args: Seq<Seq<char>>, key: Seq<char>, z: Zone, from: int, i: int)
    requires
        0 <= from <= i < args.len(),
        key_fault(args, key, z, from) is None,
    ensures
        token_place_fault(args[i], key, z) is None,
    decreases i - from,
{
    if from < i {
        lemma_no_key_fault(args, key, z, from + 1, i);
    }
}

/// A blocked or unknown command is refused whatever the mode and the tokens.
pub proof fn law_only_listed_commands_pass(words: Seq<Seq<char>>, env: WrapperEnv)
    requires
        words.len() > 0,
        blocked_commands().contains(words[0]) || !allowlist().contains(words[0]),
    ensures
        decision(words, env) is Refuse,
{
    let cmd = words[0];
    if !allowlist().contains(cmd) {
        assert forall|i: int| 0 <= i < read_commands().len() implies allowlist().contains(
            #[trigger] read_commands()[i],
        ) by {
            lemma_listed(i);
        }
        assert forall|i: int| 0 <= i < write_commands().len() implies allowlist().contains(
            #[trigger] write_commands()[i],
        ) by {
            lemma_listed(read_commands().len() + i);
        }
    }
}

/// In shadow mode nothing that writes is passed on.
pub proof fn law_shadow_never_writes(words: Seq<Seq<char>>, env: WrapperEnv)
    requires
        mode_asked(env.agent_mode) == Ok::<Mode, Seq<char>>(Mode::Shadow),
    ensures
        !(decision(words, env) is PassWrite),
{
}

/// A write command with a token that starts with a dash is refused.
pub proof fn law_dashes_are_refused(words: Seq<Seq<char>>, env: WrapperEnv, i: int)
    requires
        1 <= i < words.len(),
        words[i].len() > 0 && words[i][0] == '-',
        class_of(words[0]) == Classification::Write,
    ensures
        decision(words, env) is Refuse,
{
    let args = words.skip(1);
    assert(args[i - 1] == words[i]);
    lemma_syntax_fault(args, true, 0, i - 1);
}

proof fn lemma_syntax_fault(args: Seq<Seq<char>>, write: bool, from: int, i: int)
    requires
        0 <= from <= i < args.len(),
        token_fault(args[i], write) is Some,
    ensures
        syntax_fault(args, write, from) is Some,
    decreases i - from,
{
    if from < i {
        lemma_syntax_fault(args, write, from + 1, i);
    }
}

/// Where each command that reads or writes stands in the list of what may be
/// passed on.
proof fn lemma_listed(i: int)
    requires
        0 <= i < read_commands().len() + write_commands().len(),
    ensures
        i < read_commands().len() ==> allowlist().contains(read_commands()[i]),
        i >= read_commands().len() ==> allowlist().contains(
            write_commands()[i - read_commands().len()],
        ),
{
    let at: Seq<int> = seq![
        17,
        18,
        19,
        20,
        34,
        28,
        36,
        37,
        2,
        25,
        39,
        27,
        14,
        38,
        0,
        30,
        31,
        11,
        13,
        6,
        5,
        4,
        8,
        16,
        22,
        23,
        24,
        40,
        21,
        9,
        1,
        29,
        26,
        35,
        15,
        33,
        32,
        10,
        12,
        7,
        3,
    ];
    if i < read_commands().len() {
        assert(allowlist()[at[i]] == read_commands()[i]);
    } else {
        assert(allowlist()[at[i]] == write_commands()[i - read_commands().len()]);
    }
}

} // verus!
