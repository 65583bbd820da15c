//! What a configuration and a secrets file mean: when they are accepted, and what is
//! read out of them.

use vstd::prelude::*;
use vstd::string::*;

use crate::config;
use crate::config::{
    agent_root_of, all_faults, config_file, db_parent, expanded, fault_text, listing, numbered,
    program, tilde, word, CommandProbe, Config, Fault, Probes,
};
use crate::number::numeral;
use crate::path_laws::law_joined_name;
use crate::paths::{components, is_name, join};
use crate::secrets::{
    key_char, key_shaped, line_meaning, load_outcome, secrets_file, settings, unquoted, FoundSecrets,
    Line, SecretsLoad,
};
use crate::text;
use crate::text::{contains, starts_with, trim, white};
use crate::text_laws::{
    law_found_is_a_part, law_parts_are_found, law_replace_absent, law_replace_first, law_split_once,
    law_trim,
};

verus! {

// ---------------------------------------------------------------- validity

/// Whether a directory lies strictly inside another.
pub open spec fn lies_inside(dir: Seq<char>, outer: Seq<char>) -> bool {
    components(outer).is_prefix_of(components(dir)) && components(dir) != components(outer)
}

/// A configuration is accepted just where the vault, the sources and the agent's
/// directory can be used, the latter two lie strictly inside the vault and apart from
/// each other, the processor is a file that can be executed, the database can be opened in
/// a directory, the logs can be written, and there is a delay for each retry.
pub proof fn law_accepted(cfg: Config, p: Probes)
    ensures
        all_faults(cfg, p).len() == 0 <==> {
            &&& p.vault is Usable
            &&& p.sources is Usable
            &&& p.agent is Usable
            &&& lies_inside(p.sources->Usable_0@, p.vault->Usable_0@)
            &&& lies_inside(p.agent->Usable_0@, p.vault->Usable_0@)
            &&& !components(p.sources->Usable_0@).is_prefix_of(components(p.agent->Usable_0@))
            &&& !components(p.agent->Usable_0@).is_prefix_of(components(p.sources->Usable_0@))
            &&& p.command matches CommandProbe::File { mode, .. } && mode & 0o111u32 != 0
            &&& p.db is Usable
            &&& db_parent(cfg.paths.db_path@) is Some
            &&& p.log_dir_error is None
            &&& cfg.worker.max_attempts == 0 || cfg.worker.backoff_secs@.len() + 1
                >= cfg.worker.max_attempts
        },
{
    let v = config::vault_place(p.vault);
    let s = config::sources_place(p.sources);
    let a = config::agent_place(p.agent);
    let n1 = config::vault_faults(cfg.paths.vault_root@, p.vault).len();
    let n2 = config::sources_faults(cfg.paths.sources_dir@, p.sources).len();
    let n3 = config::sources_in_vault(v, s).len();
    let n4 = config::agent_faults(cfg.paths.agent_root@, p.agent).len();
    let n5 = config::agent_in_vault(v, a).len();
    let n6 = config::agent_off_sources(s, a).len();
    let n7 = config::command_faults(cfg.processor.command@, p.command).len();
    let n8 = config::db_faults(cfg.paths.db_path@, p.db).len();
    let n9 = config::log_faults(cfg.paths.log_dir@, p.log_dir_error).len();
    let n10 = config::backoff_faults(cfg.worker).len();
    assert(all_faults(cfg, p).len() == n1 + n2 + n3 + n4 + n5 + n6 + n7 + n8 + n9 + n10);
    if s is Some && a is Some {
        let x = components(s->0);
        if x == components(a->0) {
            assert(x =~= x.subrange(0, x.len() as int));
        }
    }
}

/// A number for each kind of fault.
pub open spec fn kind_of_fault(f: Fault) -> int {
    match f {
        Fault::VaultRoot { .. } => 0,
        Fault::SourcesDir { .. } => 1,
        Fault::SourcesNotInsideVault { .. } => 2,
        Fault::SourcesSameAsVault { .. } => 3,
        Fault::AgentRoot { .. } => 4,
        Fault::AgentRootNotInsideVault { .. } => 5,
        Fault::AgentRootOverlapsSources { .. } => 6,
        Fault::ProcessorCommand { .. } => 7,
        Fault::DbPath { .. } => 8,
        Fault::LogDir { .. } => 9,
        Fault::BackoffTooShort { .. } => 10,
    }
}

/// Whether a fault of a kind is among those that are told.
pub open spec fn told(fs: Seq<Fault>, k: int) -> bool {
    exists|i: int| 0 <= i < fs.len() && kind_of_fault(#[trigger] fs[i]) == k
}

proof fn lemma_told(a: Seq<Fault>, b: Seq<Fault>, k: int)
    ensures
        told(a + b, k) <==> told(a, k) || told(b, k),
{
    if told(a, k) {
        let i = choose|i: int| 0 <= i < a.len() && kind_of_fault(#[trigger] a[i]) == k;
        assert((a + b)[i] == a[i]);
    }
    if told(b, k) {
        let i = choose|i: int| 0 <= i < b.len() && kind_of_fault(#[trigger] b[i]) == k;
        assert((a + b)[a.len() + i] == b[i]);
    }
    if told(a + b, k) {
        let i = choose|i: int| 0 <= i < (a + b).len() && kind_of_fault(#[trigger] (a + b)[i]) == k;
        if i < a.len() {
            assert(a[i] == (a + b)[i]);
        } else {
            assert(b[i - a.len()] == (a + b)[i]);
        }
    }
}

proof fn lemma_all_told(cfg: Config, p: Probes, k: int)
    ensures
        ({
            let v = config::vault_place(p.vault);
            let s = config::sources_place(p.sources);
            let a = config::agent_place(p.agent);
            told(all_faults(cfg, p), k) <==> {
                ||| told(config::vault_faults(cfg.paths.vault_root@, p.vault), k)
                ||| told(config::sources_faults(cfg.paths.sources_dir@, p.sources), k)
                ||| told(config::sources_in_vault(v, s), k)
                ||| told(config::agent_faults(cfg.paths.agent_root@, p.agent), k)
                ||| told(config::agent_in_vault(v, a), k)
                ||| told(config::agent_off_sources(s, a), k)
                ||| told(config::command_faults(cfg.processor.command@, p.command), k)
                ||| told(config::db_faults(cfg.paths.db_path@, p.db), k)
                ||| told(config::log_faults(cfg.paths.log_dir@, p.log_dir_error), k)
                ||| told(config::backoff_faults(cfg.worker), k)
            }
        }),
{
    let v = config::vault_place(p.vault);
    let s = config::sources_place(p.sources);
    let a = config::agent_place(p.agent);
    let s1 = config::vault_faults(cfg.paths.vault_root@, p.vault);
    let f2 = config::sources_faults(cfg.paths.sources_dir@, p.sources);
    let f3 = config::sources_in_vault(v, s);
    let f4 = config::agent_faults(cfg.paths.agent_root@, p.agent);
    let f5 = config::agent_in_vault(v, a);
    let f6 = config::agent_off_sources(s, a);
    let f7 = config::command_faults(cfg.processor.command@, p.command);
    let f8 = config::db_faults(cfg.paths.db_path@, p.db);
    let f9 = config::log_faults(cfg.paths.log_dir@, p.log_dir_error);
    let f10 = config::backoff_faults(cfg.worker);
    let s2 = s1 + f2;
    let s3 = s2 + f3;
    let s4 = s3 + f4;
    let s5 = s4 + f5;
    let s6 = s5 + f6;
    let s7 = s6 + f7;
    let s8 = s7 + f8;
    let s9 = s8 + f9;
    lemma_told(s1, f2, k);
    lemma_told(s2, f3, k);
    lemma_told(s3, f4, k);
    lemma_told(s4, f5, k);
    lemma_told(s5, f6, k);
    lemma_told(s6, f7, k);
    lemma_told(s7, f8, k);
    lemma_told(s8, f9, k);
    lemma_told(s9, f10, k);
}

proof fn lemma_one_told(fs: Seq<Fault>, k: int)
    requires
        fs.len() <= 1,
    ensures
        told(fs, k) <==> fs.len() == 1 && kind_of_fault(fs[0]) == k,
{
}

/// Each fault is told just where it is there, whatever else is wrong: a directory that
/// cannot be used, the sources or the agent's directory in the wrong place, a processor
/// that cannot be run, a database that cannot be opened, logs that cannot be written, and
/// too few delays.
pub proof fn law_faults_are_told(cfg: Config, p: Probes, f: Fault)
    ensures
        ({
            let v = components(p.vault->Usable_0@);
            let s = components(p.sources->Usable_0@);
            let a = components(p.agent->Usable_0@);
            let is_told = told(all_faults(cfg, p), kind_of_fault(f));
            &&& f is VaultRoot ==> (is_told <==> !(p.vault is Usable))
            &&& f is SourcesDir ==> (is_told <==> !(p.sources is Usable))
            &&& f is AgentRoot ==> (is_told <==> !(p.agent is Usable))
            &&& f is SourcesNotInsideVault ==> (is_told <==> p.vault is Usable && p.sources is Usable
                && !v.is_prefix_of(s))
            &&& f is SourcesSameAsVault ==> (is_told <==> p.vault is Usable && p.sources is Usable && s
                == v)
            &&& f is AgentRootNotInsideVault ==> (is_told <==> p.vault is Usable && p.agent is Usable
                && (!v.is_prefix_of(a) || a == v))
            &&& f is AgentRootOverlapsSources ==> (is_told <==> p.sources is Usable && p.agent is Usable
                && (s.is_prefix_of(a) || a.is_prefix_of(s)))
            &&& f is ProcessorCommand ==> (is_told <==> !(p.command matches CommandProbe::File {
                mode,
                ..
            } && mode & 0o111u32 != 0))
            &&& f is DbPath ==> (is_told <==> !(p.db is Usable) || db_parent(cfg.paths.db_path@) is None)
            &&& f is LogDir ==> (is_told <==> p.log_dir_error is Some)
            &&& f is BackoffTooShort ==> (is_told <==> cfg.worker.max_attempts > 0
                && cfg.worker.backoff_secs@.len() + 1 < cfg.worker.max_attempts)
        }),
{
    let k = kind_of_fault(f);
    let v = config::vault_place(p.vault);
    let s = config::sources_place(p.sources);
    let a = config::agent_place(p.agent);
    lemma_all_told(cfg, p, k);
    lemma_one_told(config::vault_faults(cfg.paths.vault_root@, p.vault), k);
    lemma_one_told(config::sources_faults(cfg.paths.sources_dir@, p.sources), k);
    lemma_one_told(config::sources_in_vault(v, s), k);
    lemma_one_told(config::agent_faults(cfg.paths.agent_root@, p.agent), k);
    lemma_one_told(config::agent_in_vault(v, a), k);
    lemma_one_told(config::agent_off_sources(s, a), k);
    lemma_one_told(config::command_faults(cfg.processor.command@, p.command), k);
    lemma_one_told(config::db_faults(cfg.paths.db_path@, p.db), k);
    lemma_one_told(config::log_faults(cfg.paths.log_dir@, p.log_dir_error), k);
    lemma_one_told(config::backoff_faults(cfg.worker), k);
    if s is Some {
        let x = components(s->0);
        assert(x =~= x.subrange(0, x.len() as int));
    }
}

/// What is said of a fault names the key and what is wrong with it.
pub proof fn law_fault_text(path: Seq<char>, detail: Seq<char>)
    ensures
        contains(fault_text(Fault::VaultRoot { path, detail }), "vault_root '"@ + path + "': "@ + detail),
        contains(fault_text(Fault::SourcesDir { path, detail }), "sources_dir '"@ + path + "': "@ + detail),
        contains(fault_text(Fault::AgentRoot { path, detail }), "agent_root '"@ + path + "': "@ + detail),
        contains(
            fault_text(Fault::ProcessorCommand { command: path, detail }),
            "processor.command '"@ + path + "': "@ + detail,
        ),
        contains(fault_text(Fault::DbPath { db_path: path, detail }), "db_path '"@ + path + "': "@ + detail),
        contains(fault_text(Fault::LogDir { log_dir: path, detail }), "log_dir '"@ + path + "': "@ + detail),
{
    lemma_begins("vault_root '"@ + path + "': "@ + detail, "\nAction: create the directory and ensure the current user has read+write access."@);
    lemma_begins("sources_dir '"@ + path + "': "@ + detail, "\nAction: create the directory and ensure the current user has read access."@);
    lemma_begins("agent_root '"@ + path + "': "@ + detail, "\nAction: ensure the directory exists or can be created and that the current user has read+write access."@);
    lemma_begins("processor.command '"@ + path + "': "@ + detail, "\nAction: verify the script path is correct, that the file exists, and that it has execute permission (`chmod +x`)."@);
    lemma_begins("db_path '"@ + path + "': "@ + detail, "\nAction: ensure the parent directory exists or can be created, and that the current user can write there."@);
    lemma_begins("log_dir '"@ + path + "': "@ + detail, "\nAction: ensure the parent directory exists or can be created, and that the current user can write there."@);
}

proof fn lemma_begins(p: Seq<char>, rest: Seq<char>)
    ensures
        contains(p + rest, p),
{
    assert((p + rest).subrange(0, p.len() as int) =~= p);
    assert(text::occurs_at(p + rest, p, 0));
}

/// The listing says how many faults there are and holds every one of them.
pub proof fn law_listing(fs: Seq<Fault>, i: int)
    requires
        0 <= i < fs.len(),
    ensures
        starts_with(
            listing(fs),
            "Configuration validation failed with "@ + numeral(fs.len()) + " error(s):\n"@,
        ),
        contains(listing(fs), fault_text(fs[i])),
{
    let head = "Configuration validation failed with "@ + numeral(fs.len()) + " error(s):\n"@;
    let body = numbered(fs, fs.len());
    assert((head + body).subrange(0, head.len() as int) =~= head);
    lemma_numbered(fs, fs.len(), i);
    let k = choose|k: int| text::occurs_at(body, fault_text(fs[i]), k);
    let t = fault_text(fs[i]);
    assert((head + body).subrange(head.len() + k, head.len() + k + t.len()) =~= body.subrange(
        k,
        k + t.len(),
    ));
    assert(text::occurs_at(head + body, t, head.len() + k));
}

proof fn lemma_numbered(fs: Seq<Fault>, n: nat, i: int)
    requires
        0 <= i < n <= fs.len(),
    ensures
        contains(numbered(fs, n), fault_text(fs[i])),
    decreases n,
{
    let before = numbered(fs, (n - 1) as nat);
    let mid = "\n  ["@ + numeral(n) + "] "@;
    let t = fault_text(fs[n - 1]);
    let all = numbered(fs, n);
    assert(all =~= before + mid + t + "\n"@);
    if i == n - 1 {
        law_parts_are_found(before + mid, t, "\n"@);
    } else {
        lemma_numbered(fs, (n - 1) as nat, i);
        let k = choose|k: int| text::occurs_at(before, fault_text(fs[i]), k);
        let x = fault_text(fs[i]);
        assert(all.subrange(k, k + x.len()) =~= before.subrange(k, k + x.len()));
        assert(text::occurs_at(all, x, k));
    }
}

// ---------------------------------------------------------------- expansion

/// A tilde stands for the home directory where it is alone or before a slash; any other
/// path stays, and so does every path where no home is known.
pub proof fn law_tilde(home: Seq<char>, rest: Seq<char>, path: Seq<char>)
    ensures
        tilde("~"@, Some(home)) == home,
        tilde("~/"@ + rest, Some(home)) == join(home, rest),
        path.len() == 0 || path[0] != '~' ==> tilde(path, Some(home)) == path,
        path.len() > 1 && path[1] != '/' ==> tilde(path, Some(home)) == path,
        tilde(path, None) == path,
{
    reveal_strlit("~");
    reveal_strlit("~/");
    let p = "~/"@ + rest;
    assert(p.len() >= 2 && "~"@.len() == 1);
    law_parts_are_found(Seq::empty(), "~/"@, rest);
    assert(p.skip(2) =~= rest);
    if starts_with(path, "~/"@) {
        law_found_is_a_part(path, "~/"@);
        assert(path[0] == "~/"@[0] && path[1] == "~/"@[1]);
    }
    assert("~"@[0] == '~');
}

/// Loading a configuration expands each of its paths, puts the vault in place of its
/// marker in the agent's directory, and leaves every other setting as it is.
pub proof fn law_expanded(cfg: Config, home: Option<Seq<char>>, r: Config)
    requires
        expanded(cfg, home, r),
    ensures
        r.paths.vault_root@ == tilde(cfg.paths.vault_root@, home),
        r.paths.sources_dir@ == tilde(cfg.paths.sources_dir@, home),
        r.paths.db_path@ == tilde(cfg.paths.db_path@, home),
        r.paths.log_dir@ == tilde(cfg.paths.log_dir@, home),
        r.processor.command@ == tilde(cfg.processor.command@, home),
        r.processor.work_dir_root@ == tilde(cfg.processor.work_dir_root@, home),
        r.paths.agent_root@ == agent_root_of(cfg.paths.agent_root@, r.paths.vault_root@, home),
        r.processor.timeout_secs == cfg.processor.timeout_secs,
        r.watch == cfg.watch,
        r.worker == cfg.worker,
        r.ops == cfg.ops,
{
}

/// The marker of the vault in the agent's directory is replaced by the vault.
pub proof fn law_vault_marker(rest: Seq<char>, vault: Seq<char>, home: Option<Seq<char>>)
    requires
        !contains(rest, "<vault_root>"@),
        vault.len() > 0,
        vault[0] != '~',
    ensures
        agent_root_of("<vault_root>"@ + rest, vault, home) == vault + rest,
        agent_root_of(rest, vault, home) == tilde(rest, home),
{
    reveal_strlit("<vault_root>");
    law_replace_first("<vault_root>"@, rest, vault);
    law_replace_absent(rest, "<vault_root>"@, vault);
    let p = vault + rest;
    if home is Some {
        law_tilde(home->0, rest, p);
    }
}

/// The configuration and the secrets lie in the same directory below the home.
pub proof fn law_home_files(home: Seq<char>)
    ensures
        components(config_file(Some(home))) == components(home).push(".config"@).push(
            "knowledge-builder"@,
        ).push("config.toml"@),
        components(secrets_file(Some(home))) == components(home).push(".config"@).push(
            "knowledge-builder"@,
        ).push("secrets.env"@),
{
    lemma_names();
    let a = join(home, ".config"@);
    let b = join(a, "knowledge-builder"@);
    law_joined_name(home, ".config"@);
    law_joined_name(a, "knowledge-builder"@);
    law_joined_name(b, "config.toml"@);
    law_joined_name(b, "secrets.env"@);
}

proof fn lemma_names()
    ensures
        is_name(".config"@),
        is_name("knowledge-builder"@),
        is_name("config.toml"@),
        is_name("secrets.env"@),
{
    assert(is_name(".config"@)) by {
        reveal_strlit(".config");
        assert(".config"@.len() == 7);
    }
    assert(is_name("knowledge-builder"@)) by {
        reveal_strlit("knowledge-builder");
        assert("knowledge-builder"@.len() == 17);
    }
    assert(is_name("config.toml"@)) by {
        reveal_strlit("config.toml");
        assert("config.toml"@.len() == 11);
    }
    assert(is_name("secrets.env"@)) by {
        reveal_strlit("secrets.env");
        assert("secrets.env"@.len() == 11);
    }
}

proof fn lemma_word(w: Seq<char>, rest: Seq<char>)
    requires
        forall|i: int| 0 <= i < w.len() ==> !white(#[trigger] w[i]),
        rest.len() == 0 || white(rest[0]),
    ensures
        word(w + rest) == w,
    decreases w.len(),
{
    let s = w + rest;
    if w.len() == 0 {
        assert(s =~= rest);
        assert(word(s) =~= w);
    } else {
        assert(s[0] == w[0]);
        assert(s.skip(1) =~= w.skip(1) + rest);
        lemma_word(w.skip(1), rest);
        assert(seq![w[0]] + w.skip(1) =~= w);
    }
}

/// The program of a command is its first word, whatever follows.
pub proof fn law_program(w: Seq<char>, rest: Seq<char>)
    requires
        w.len() > 0,
        forall|i: int| 0 <= i < w.len() ==> !white(#[trigger] w[i]),
        rest.len() == 0 || white(rest[0]),
    ensures
        program(w + rest) == w,
        program(seq![' '] + (w + rest)) == w,
{
    let s = w + rest;
    assert(s[0] == w[0]);
    assert(text::trim_start(s) == s);
    lemma_word(w, rest);
    let t = seq![' '] + s;
    assert(t.skip(1) =~= s);
    assert(text::trim_start(t) == text::trim_start(s));
}

// ---------------------------------------------------------------- secrets

/// Keys are made of letters, digits and underscores.
pub proof fn law_key_char(c: char)
    ensures
        key_char(c) <==> 'a' <= c <= 'z' || 'A' <= c <= 'Z' || '0' <= c <= '9' || c == '_',
{
}

proof fn lemma_no_export(key: Seq<char>, v: Seq<char>)
    requires
        key.len() > 0,
        key_shaped(key),
    ensures
        !starts_with(key + seq!['='] + v, "export "@),
{
    let s = key + seq!['='] + v;
    let x = "export "@;
    reveal_strlit("export ");
    assert(x.len() == 7 && x[0] == 'e' && x[1] == 'x' && x[2] == 'p' && x[3] == 'o' && x[4] == 'r'
        && x[5] == 't' && x[6] == ' ');
    if starts_with(s, x) {
        law_found_is_a_part(s, x);
        assert(s[6] == ' ');
        assert(s[key.len() as int] == '=');
        if key.len() > 6 {
            assert(s[6] == key[6]);
            assert(key_char(key[6]));
        } else {
            assert(s[key.len() as int] == x[key.len() as int]);
        }
    }
}

#[verifier::spinoff_prover]
#[verifier::rlimit(40)]
proof fn lemma_setting(key: Seq<char>, v: Seq<char>)
    requires
        key.len() > 0,
        key_shaped(key),
        v.len() == 0 || (!white(v[0]) && !white(v.last())),
    ensures
        line_meaning(key + seq!['='] + v) == (Line::Setting { key, value: unquoted(v) }),
{
    let s = key + seq!['='] + v;
    let e = Seq::<char>::empty();
    assert(key_char(key[0]));
    assert(s[0] == key[0]);
    assert(s.last() == if v.len() > 0 {
        v.last()
    } else {
        '='
    });
    assert(e + s + e =~= s);
    law_trim(e, s, e);
    lemma_no_export(key, v);
    assert(text::trim_start(s) == s);
    assert(!key.contains('=')) by {
        if key.contains('=') {
            let i = choose|i: int| 0 <= i < key.len() && key[i] == '=';
            assert(key_char(key[i]));
        }
    }
    law_split_once(key, '=', v);
    assert(key_char(key.last())) by {
        assert(key.last() == key[key.len() - 1]);
    }
    assert(e + key + e =~= key);
    law_trim(e, key, e);
    assert(e + v + e =~= v);
    law_trim(e, v, e);
}

/// A line `KEY=VALUE` sets the key to the value, with or without `export` before it; one
/// pair of quotes around the value is taken off.
pub proof fn law_secret_line(key: Seq<char>, v: Seq<char>)
    requires
        key.len() > 0,
        key_shaped(key),
        v.len() == 0 || (!white(v[0]) && !white(v.last())),
        v.len() == 0 || (v[0] != '"' && v[0] != '\''),
    ensures
        line_meaning(key + seq!['='] + v) == (Line::Setting { key, value: v }),
        line_meaning(key + seq!['='] + (seq!['"'] + v + seq!['"'])) == (Line::Setting { key, value: v }),
        line_meaning(key + seq!['='] + (seq!['\''] + v + seq!['\''])) == (Line::Setting {
            key,
            value: v,
        }),
        line_meaning("export "@ + (key + seq!['='] + v)) == (Line::Setting { key, value: v }),
{
    lemma_setting(key, v);
    let q = seq!['"'] + v + seq!['"'];
    let a = seq!['\''] + v + seq!['\''];
    lemma_setting(key, q);
    lemma_setting(key, a);
    assert(q.subrange(1, q.len() - 1) =~= v);
    assert(a.subrange(1, a.len() - 1) =~= v);
    let s = key + seq!['='] + v;
    let x = "export "@ + s;
    reveal_strlit("export ");
    let e = Seq::<char>::empty();
    assert("export "@[0] == 'e' && "export "@.len() == 7);
    assert(x[0] == 'e');
    assert(x.last() == s.last());
    assert(s.last() == if v.len() > 0 {
        v.last()
    } else {
        '='
    });
    assert(e + x + e =~= x);
    law_trim(e, x, e);
    law_parts_are_found(e, "export "@, s);
    assert(x.skip(7) =~= s);
    assert(key_char(key[0]) && s[0] == key[0]);
    assert(text::trim_start(s) == s);
    assert(!key.contains('=')) by {
        if key.contains('=') {
            let i = choose|i: int| 0 <= i < key.len() && key[i] == '=';
            assert(key_char(key[i]));
        }
    }
    law_split_once(key, '=', v);
    assert(key_char(key.last())) by {
        assert(key.last() == key[key.len() - 1]);
    }
    assert(e + key + e =~= key);
    law_trim(e, key, e);
    assert(e + v + e =~= v);
    law_trim(e, v, e);
}

/// Blank lines and comments say nothing.
pub proof fn law_secret_comment(raw: Seq<char>)
    ensures
        trim(raw).len() == 0 ==> line_meaning(raw) == Line::Nothing,
        trim(raw).len() > 0 && trim(raw)[0] == '#' ==> line_meaning(raw) == Line::Nothing,
{
}

/// Each line adds to what those before it say: a setting replaces an earlier one of the
/// same key and no other, a fault is told with its line, and nothing is read past it.
pub proof fn law_secret_lines(lines: Seq<Seq<char>>, l: Seq<char>)
    ensures
        ({
            let before = settings(lines, lines.len());
            let after = settings(lines.push(l), lines.len() + 1);
            &&& settings(Seq::<Seq<char>>::empty(), 0) == Ok::<
                Map<Seq<char>, Seq<char>>,
                (nat, Seq<char>),
            >(Map::empty())
            &&& before is Err ==> after == before
            &&& before matches Ok(m) ==> match line_meaning(l) {
                Line::Nothing => after == before,
                Line::Setting { key, value } => after == Ok::<
                    Map<Seq<char>, Seq<char>>,
                    (nat, Seq<char>),
                >(m.insert(key, value)),
                Line::Fault { detail } => after == Err::<
                    Map<Seq<char>, Seq<char>>,
                    (nat, Seq<char>),
                >((lines.len() + 1, detail)),
            }
        }),
{
    lemma_settings_pushed(lines, l, lines.len());
    assert(lines.push(l)[lines.len() as int] == l);
}

proof fn lemma_settings_pushed(lines: Seq<Seq<char>>, l: Seq<char>, n: nat)
    requires
        n <= lines.len(),
    ensures
        settings(lines.push(l), n) == settings(lines, n),
    decreases n,
{
    if n > 0 {
        lemma_settings_pushed(lines, l, (n - 1) as nat);
        assert(lines.push(l)[n - 1] == lines[n - 1]);
    }
}

/// A secrets file that is there is refused just where its mode lets the group or others
/// at it.
pub proof fn law_open_secrets_are_refused(
    path: Seq<char>,
    mode: u32,
    content: Result<String, String>,
    l: SecretsLoad,
)
    requires
        load_outcome(path, (FoundSecrets::Present { mode: Some(mode), content }), Ok(l)),
    ensures
        l.refusal_text() is Some <==> mode & 0o077u32 != 0,
        l.loaded,
{
    assert((mode & 0o777u32) & 0o077u32 == mode & 0o077u32) by (bit_vector);
}

/// A file that is missing is no fault and says nothing.
pub proof fn law_missing_secrets(path: Seq<char>, l: SecretsLoad)
    requires
        load_outcome(path, FoundSecrets::Missing, Ok(l)),
    ensures
        !l.loaded,
        l.refusal_text() is None,
        l.entries@.dom() == Set::<Seq<char>>::empty(),
{
    assert(l.entries@.dom() =~= Set::<Seq<char>>::empty());
}

} // verus!
