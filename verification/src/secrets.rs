//! The secrets file: `KEY=VALUE` lines that are handed to the processor as
//! environment variables.

use vstd::prelude::*;
use vstd::string::*;

use crate::config;
use crate::env_map::EnvMap;
use crate::number;
use crate::number::{count_text, octal_text};
use crate::paths;
use crate::paths::join_path;
use crate::text;
use crate::text::{
    chars_of, lines_of, quote, split_at_first, strip_front, trimmed, trimmed_start,
};

verus! {

/// Why the secrets file could not be used.
#[derive(Debug, Clone)]
pub enum SecretsError {
    /// The file could not be examined or read.
    Io { path: String, source: String },
    /// A line is not `KEY=VALUE`.
    Parse { path: String, line: usize, detail: String },
}

impl SecretsError {
    pub open spec fn text(&self) -> Seq<char> {
        match *self {
            SecretsError::Io { path, source } => "failed to read secrets file '"@ + path@ + "': "@
                + source@,
            SecretsError::Parse { path, line, detail } => "secrets file '"@ + path@ + "' line "@
                + number::numeral(line as nat) + ": "@ + detail@,
        }
    }

    /// The message that a user sees.
    pub fn message(&self) -> (r: String)
        ensures
            r@ == self.text(),
    {
        match self {
            SecretsError::Io { path, source } => {
                let mut s = String::from_str("failed to read secrets file '");
                s.append(path.as_str());
                s.append("': ");
                s.append(source.as_str());
                s
            },
            SecretsError::Parse { path, line, detail } => {
                let mut s = String::from_str("secrets file '");
                s.append(path.as_str());
                s.append("' line ");
                s.append(count_text(*line).as_str());
                s.append(": ");
                s.append(detail.as_str());
                s
            },
        }
    }
}

// ---------------------------------------------------------------- lines

/// Whether a character may stand in a key.
pub open spec fn key_char(c: char) -> bool {
    'a' <= c <= 'z' || 'A' <= c <= 'Z' || '0' <= c <= '9' || c == '_'
}

/// Whether every character of `k` may stand in a key.
pub open spec fn key_shaped(k: Seq<char>) -> bool {
    forall|i: int| 0 <= i < k.len() ==> key_char(#[trigger] k[i])
}

/// `s` without one pair of matching quotes around it.
pub open spec fn unquoted(s: Seq<char>) -> Seq<char> {
    if s.len() >= 2 && ((s[0] == '"' && s.last() == '"') || (s[0] == '\'' && s.last() == '\'')) {
        s.subrange(1, s.len() - 1)
    } else {
        s
    }
}

/// What a line of the file says.
pub enum Line {
    /// A blank line or a comment.
    Nothing,
    Setting { key: Seq<char>, value: Seq<char> },
    Fault { detail: Seq<char> },
}

/// A trimmed line without a leading `export `.
pub open spec fn without_export(s: Seq<char>) -> Seq<char> {
    text::trim_start(
        if text::starts_with(s, "export "@) {
            s.skip("export "@.len() as int)
        } else {
            s
        },
    )
}

/// What a line of the file says: white space around it, its key and its value does
/// not count, the first `=` separates key and value.
pub open spec fn line_meaning(raw: Seq<char>) -> Line {
    let line = text::trim(raw);
    if line.len() == 0 || line[0] == '#' {
        Line::Nothing
    } else {
        match text::split_once(without_export(line), '=') {
            None => Line::Fault { detail: "expected KEY=VALUE, got: "@ + text::quoted(raw) },
            Some((k, v)) => {
                let key = text::trim(k);
                if key.len() == 0 {
                    Line::Fault { detail: "empty key before `=`"@ }
                } else if !key_shaped(key) {
                    Line::Fault { detail: "invalid characters in key: "@ + text::quoted(key) }
                } else {
                    Line::Setting { key, value: unquoted(text::trim(v)) }
                }
            },
        }
    }
}

/// What the first `n` lines say together: the settings, a later one replacing an
/// earlier one of the same key, or the first fault and its line number.
pub open spec fn settings(lines: Seq<Seq<char>>, n: nat) -> Result<
    Map<Seq<char>, Seq<char>>,
    (nat, Seq<char>),
>
    decreases n,
{
    if n == 0 {
        Ok(Map::empty())
    } else {
        match settings(lines, (n - 1) as nat) {
            Err(e) => Err(e),
            Ok(m) => match line_meaning(lines[n - 1]) {
                Line::Nothing => Ok(m),
                Line::Setting { key, value } => Ok(m.insert(key, value)),
                Line::Fault { detail } => Err((n, detail)),
            },
        }
    }
}

/// What the whole file says.
pub open spec fn file_settings(content: Seq<char>) -> Result<
    Map<Seq<char>, Seq<char>>,
    (nat, Seq<char>),
> {
    settings(text::lines(content), text::lines(content).len())
}

/// A fault stays the answer whatever follows it.
proof fn lemma_fault_stays(lines: Seq<Seq<char>>, m: nat, n: nat)
    requires
        m <= n,
        settings(lines, m) is Err,
    ensures
        settings(lines, n) == settings(lines, m),
    decreases n - m,
{
    if m < n {
        lemma_fault_stays(lines, m, (n - 1) as nat);
    }
}

fn has_key_shape(k: &str) -> (b: bool)
    ensures
        b == key_shaped(k@),
{
    let v = chars_of(k);
    let mut i: usize = 0;
    while i < v.len()
        invariant
            v@ == k@,
            i <= v@.len(),
            forall|j: int| 0 <= j < i ==> key_char(#[trigger] v@[j]),
        decreases v@.len() - i,
    {
        let c = v[i];
        if !(('a' <= c && c <= 'z') || ('A' <= c && c <= 'Z') || ('0' <= c && c <= '9') || c
            == '_') {
            assert(!key_char(k@[i as int]));
            return false;
        }
        i = i + 1;
    }
    true
}

/// `s` without one pair of matching quotes around it.
pub fn strip_matching_quotes(s: &str) -> (r: &str)
    ensures
        r@ == unquoted(s@),
{
    let n: usize = s.unicode_len();
    if n >= 2 {
        let first = s.get_char(0);
        let last = s.get_char(n - 1);
        if (first == '"' && last == '"') || (first == '\'' && last == '\'') {
            return s.substring_char(1, n - 1);
        }
    }
    s
}

/// Reads the settings of a secrets file, or the first fault.
pub fn parse_dotenv(content: &str, path: &str) -> (r: Result<EnvMap, SecretsError>)
    ensures
        match r {
            Ok(m) => file_settings(content@) == Ok::<
                Map<Seq<char>, Seq<char>>,
                (nat, Seq<char>),
            >(m@),
            Err(SecretsError::Parse { path: p, line, detail }) => p@ == path@ && file_settings(
                content@,
            ) == Err::<Map<Seq<char>, Seq<char>>, (nat, Seq<char>)>((line as nat, detail@)),
            Err(SecretsError::Io { .. }) => false,
        },
{
    let lines = lines_of(content);
    let ghost vs = text::views(lines@);
    let mut out = EnvMap::new();
    let mut i: usize = 0;
    assert(vs.len() == lines@.len());
    while i < lines.len()
        invariant
            vs == text::views(lines@),
            vs == text::lines(content@),
            vs.len() == lines@.len(),
            i <= lines@.len(),
            settings(vs, i as nat) == Ok::<Map<Seq<char>, Seq<char>>, (nat, Seq<char>)>(out@),
        decreases lines@.len() - i,
    {
        let raw = lines[i].as_str();
        assert(vs[i as int] == raw@);
        let line_no: usize = i + 1;
        let line = trimmed(raw);
        assert(settings(vs, line_no as nat) == match line_meaning(raw@) {
            Line::Nothing => Ok::<Map<Seq<char>, Seq<char>>, (nat, Seq<char>)>(out@),
            Line::Setting { key, value } => Ok(out@.insert(key, value)),
            Line::Fault { detail } => Err((line_no as nat, detail)),
        });
        proof {
            if settings(vs, line_no as nat) is Err {
                lemma_fault_stays(vs, line_no as nat, vs.len());
            }
        }
        if !line.is_empty() && line.get_char(0) != '#' {
            let bare = match strip_front(line, "export ") {
                Some(rest) => trimmed_start(rest),
                None => trimmed_start(line),
            };
            assert(bare@ == without_export(line@));
            match split_at_first(bare, '=') {
                None => {
                    let mut detail = String::from_str("expected KEY=VALUE, got: ");
                    detail.append(quote(raw).as_str());
                    return Err(
                        SecretsError::Parse { path: String::from_str(path), line: line_no, detail },
                    );
                },
                Some((k, v)) => {
                    let key = trimmed(k);
                    if key.is_empty() {
                        return Err(
                            SecretsError::Parse {
                                path: String::from_str(path),
                                line: line_no,
                                detail: String::from_str("empty key before `=`"),
                            },
                        );
                    }
                    if !has_key_shape(key) {
                        let mut detail = String::from_str("invalid characters in key: ");
                        detail.append(quote(key).as_str());
                        return Err(
                            SecretsError::Parse {
                                path: String::from_str(path),
                                line: line_no,
                                detail,
                            },
                        );
                    }
                    let value = strip_matching_quotes(trimmed(v));
                    out.insert(key, value);
                },
            }
        }
        i = i + 1;
    }
    Ok(out)
}

// ---------------------------------------------------------------- loading

/// What was loaded, and what to tell the operator about it.
#[derive(Debug)]
pub struct SecretsLoad {
    /// The path that was tried.
    pub path: String,
    /// Whether the file was there and was read.
    pub loaded: bool,
    /// Whether its mode lets group or others at it.
    pub insecure_perms: bool,
    /// Its permission bits, where the platform has them.
    pub mode: Option<u32>,
    /// The settings.
    pub entries: EnvMap,
}

impl Default for SecretsLoad {
    fn default() -> (r: Self)
        ensures
            r.path@ == Seq::<char>::empty(),
            !r.loaded,
            !r.insecure_perms,
            r.mode is None,
            r.entries@ == Map::<Seq<char>, Seq<char>>::empty(),
    {
        SecretsLoad {
            path: String::new(),
            loaded: false,
            insecure_perms: false,
            mode: None,
            entries: EnvMap::new(),
        }
    }
}

impl SecretsLoad {
    /// The names of the settings in order, never their values.
    pub fn keys(&self) -> (r: Vec<&str>)
        ensures
            forall|i: int, j: int|
                #![trigger r@[i], r@[j]]
                0 <= i < j < r@.len() ==> text::text_lt(r@[i]@, r@[j]@),
            forall|k: Seq<char>|
                self.entries@.contains_key(k) <==> exists|i: int|
                    0 <= i < r@.len() && (#[trigger] r@[i])@ == k,
    {
        self.entries.keys()
    }

    /// Why the daemon does not start with this file: it is there, and its mode lets
    /// group or others at it.
    pub open spec fn refusal_text(&self) -> Option<Seq<char>> {
        if self.loaded && self.insecure_perms {
            Some(
                "Secrets file '"@ + self.path@ + "' has permissive mode "@ + number::octal(
                    match self.mode {
                        Some(m) => m as nat,
                        None => 0,
                    },
                ) + "; run: chmod 600 '"@ + self.path@ + "'"@,
            )
        } else {
            None
        }
    }

    /// Why the daemon does not start with this file, if it does not.
    pub fn refusal(&self) -> (r: Option<String>)
        ensures
            match r {
                Some(m) => self.refusal_text() == Some(m@),
                None => self.refusal_text() is None,
            },
    {
        if !self.loaded || !self.insecure_perms {
            return None;
        }
        let mode: u32 = match self.mode {
            Some(m) => m,
            None => 0,
        };
        let mut s = String::from_str("Secrets file '");
        s.append(self.path.as_str());
        s.append("' has permissive mode ");
        s.append(octal_text(mode).as_str());
        s.append("; run: chmod 600 '");
        s.append(self.path.as_str());
        s.append("'");
        Some(s)
    }
}

/// What the file system says of the secrets file.
#[derive(Debug)]
pub enum FoundSecrets {
    Missing,
    NoMetadata(String),
    /// It is there, with its raw mode where the platform has one, and its content
    /// or the error of reading it.
    Present { mode: Option<u32>, content: Result<String, String> },
}

/// The secrets file, below the home directory or, where none is known, below the
/// current one.
pub open spec fn secrets_file(home: Option<Seq<char>>) -> Seq<char> {
    let base = match home {
        Some(h) => h,
        None => "."@,
    };
    paths::join(paths::join(paths::join(base, ".config"@), "knowledge-builder"@), "secrets.env"@)
}

/// The path of the secrets file.
pub fn secrets_file_path(home: Option<&str>) -> (r: String)
    ensures
        r@ == secrets_file(config::home_view(home)),
{
    let base = match home {
        Some(h) => h,
        None => ".",
    };
    let a = join_path(base, ".config");
    let b = join_path(a.as_str(), "knowledge-builder");
    join_path(b.as_str(), "secrets.env")
}

/// Whether `r` is what loading `found` at `path` gives.
pub open spec fn load_outcome(
    path: Seq<char>,
    found: FoundSecrets,
    r: Result<SecretsLoad, SecretsError>,
) -> bool {
    match found {
        FoundSecrets::Missing => r matches Ok(l) && l.path@ == path && !l.loaded
            && !l.insecure_perms && l.mode is None && l.entries@ == Map::<
            Seq<char>,
            Seq<char>,
        >::empty(),
        FoundSecrets::NoMetadata(e) => r matches Err(SecretsError::Io { path: p, source }) && p@
            == path && source@ == e@,
        FoundSecrets::Present { mode, content } => match content {
            Err(e) => r matches Err(SecretsError::Io { path: p, source }) && p@ == path && source@
                == e@,
            Ok(c) => match file_settings(c@) {
                Ok(m) => r matches Ok(l) && l.path@ == path && l.loaded && l.entries@ == m
                    && l.mode == match mode {
                    Some(b) => Some(b & 0o777u32),
                    None => None,
                } && l.insecure_perms == (mode matches Some(b) && (b & 0o777u32) & 0o077u32 != 0),
                Err((n, d)) => r matches Err(SecretsError::Parse { path: p, line, detail }) && p@
                    == path && line == n && detail@ == d,
            },
        },
    }
}

/// Loads the secrets file from an explicit path.
///
/// A missing file is no error: nothing is loaded. A file that lets group or others
/// at it is loaded and flagged.
pub fn load_secrets_from(path: &str, found: FoundSecrets) -> (r: Result<SecretsLoad, SecretsError>)
    ensures
        load_outcome(path@, found, r),
{
    match found {
        FoundSecrets::Missing => Ok(
            SecretsLoad {
                path: String::from_str(path),
                loaded: false,
                insecure_perms: false,
                mode: None,
                entries: EnvMap::new(),
            },
        ),
        FoundSecrets::NoMetadata(e) => Err(
            SecretsError::Io { path: String::from_str(path), source: e },
        ),
        FoundSecrets::Present { mode, content } => {
            let kept: Option<u32> = match mode {
                Some(b) => Some(b & 0o777u32),
                None => None,
            };
            let loose = match kept {
                Some(b) => b & 0o077u32 != 0,
                None => false,
            };
            match content {
                Err(e) => Err(SecretsError::Io { path: String::from_str(path), source: e }),
                Ok(c) => match parse_dotenv(c.as_str(), path) {
                    Ok(entries) => Ok(
                        SecretsLoad {
                            path: String::from_str(path),
                            loaded: true,
                            insecure_perms: loose,
                            mode: kept,
                            entries,
                        },
                    ),
                    Err(e) => Err(e),
                },
            }
        },
    }
}

/// Loads the secrets file from its standard place.
pub fn load_secrets(home: Option<&str>, found: FoundSecrets) -> (r: Result<
    SecretsLoad,
    SecretsError,
>)
    ensures
        load_outcome(secrets_file(config::home_view(home)), found, r),
{
    let path = secrets_file_path(home);
    load_secrets_from(path.as_str(), found)
}

// ---------------------------------------------------------------- laws

/// Every key that a file sets is non-empty and made of ASCII letters, digits and
/// underscores.
pub proof fn law_keys_are_well_formed(content: Seq<char>, k: Seq<char>)
    requires
        file_settings(content) matches Ok(m) && m.contains_key(k),
    ensures
        k.len() > 0,
        key_shaped(k),
{
    lemma_keys_are_well_formed(text::lines(content), text::lines(content).len(), k);
}

proof fn lemma_keys_are_well_formed(lines: Seq<Seq<char>>, n: nat, k: Seq<char>)
    requires
        settings(lines, n) matches Ok(m) && m.contains_key(k),
    ensures
        k.len() > 0,
        key_shaped(k),
    decreases n,
{
    if n > 0 {
        let before = settings(lines, (n - 1) as nat);
        if before->Ok_0.contains_key(k) {
            lemma_keys_are_well_formed(lines, (n - 1) as nat, k);
        }
    }
}

/// A file that is not there never keeps the daemon from starting, and one that
/// only its owner can reach never does.
pub proof fn law_owner_only_is_accepted(
    path: Seq<char>,
    found: FoundSecrets,
    l: SecretsLoad,
)
    requires
        load_outcome(path, found, Ok(l)),
        found is Missing || (found matches FoundSecrets::Present { mode, .. } && mode == Some(
            0o600u32,
        )),
    ensures
        l.refusal_text() is None,
{
    assert((0o600u32 & 0o777u32) & 0o077u32 == 0) by (bit_vector);
}

} // verus!
