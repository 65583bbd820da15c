//! What the boundary between the agent and Obsidian lets through: which commands read
//! and which write, what is recorded, and what is refused.

use vstd::prelude::*;
use vstd::string::*;

use crate::json;
use crate::obsidian::{
    allowlist, blocked_commands, class_of, decision, error_fields, key_fault, mode_asked,
    names_place, path_keys, place_fault, read_commands, shadow_fields, syntax_fault, token_fault,
    token_place_fault, token_value, value_fault, write_commands, zone_of, Classification,
    DecisionView, Mode, WrapperEnv, Zone,
};
use crate::paths::{components, join, normal};
use crate::text::{lower_ascii, split_once, starts_with, trim};
use crate::text_laws::{law_found_is_a_part, law_parts_are_found, law_split_once, law_trim};

verus! {

// ---------------------------------------------------------------- classes

/// A number by which the names of commands are told apart: it is made of the length, the
/// third and the last character.
spec fn telling(s: Seq<char>) -> int {
    s.len() + 100 * (s[2] as int) + 100000 * (s[s.len() - 1] as int)
}

proof fn lemma_reads()
    ensures
        telling("file"@) == 10110804,
        telling("files"@) == 11510805,
        telling("folder"@) == 11410806,
        telling("folders"@) == 11510807,
        telling("read"@) == 10009704,
        telling("outline"@) == 10111607,
        telling("search"@) == 10409706,
        telling("search:context"@) == 11609714,
        telling("backlinks"@) == 11509909,
        telling("links"@) == 11511005,
        telling("unresolved"@) == 10011410,
        telling("orphans"@) == 11511207,
        telling("deadends"@) == 11509708,
        telling("tags"@) == 11510304,
        telling("aliases"@) == 11510507,
        telling("properties"@) == 11511110,
        telling("property:read"@) == 10011113,
        telling("daily:path"@) == 10410510,
        telling("daily:read"@) == 10010510,
        telling("bases"@) == 11511505,
        telling("base:views"@) == 11511510,
        telling("base:query"@) == 12111510,
        telling("bookmarks"@) == 11511109,
        telling("diff"@) == 10210204,
        telling("history"@) == 12111507,
        telling("history:list"@) == 11611512,
        telling("history:read"@) == 10011512,
        telling("version"@) == 11011407,
        telling("help"@) == 11210804,
{
    reveal_strlit("file");
    reveal_strlit("files");
    reveal_strlit("folder");
    reveal_strlit("folders");
    reveal_strlit("read");
    reveal_strlit("outline");
    reveal_strlit("search");
    reveal_strlit("search:context");
    reveal_strlit("backlinks");
    reveal_strlit("links");
    reveal_strlit("unresolved");
    reveal_strlit("orphans");
    reveal_strlit("deadends");
    reveal_strlit("tags");
    reveal_strlit("aliases");
    reveal_strlit("properties");
    reveal_strlit("property:read");
    reveal_strlit("daily:path");
    reveal_strlit("daily:read");
    reveal_strlit("bases");
    reveal_strlit("base:views");
    reveal_strlit("base:query");
    reveal_strlit("bookmarks");
    reveal_strlit("diff");
    reveal_strlit("history");
    reveal_strlit("history:list");
    reveal_strlit("history:read");
    reveal_strlit("version");
    reveal_strlit("help");
}

proof fn lemma_writes()
    ensures
        telling("create"@) == 10110106,
        telling("append"@) == 10011206,
        telling("prepend"@) == 10010107,
        telling("move"@) == 10111804,
        telling("rename"@) == 10111006,
        telling("delete"@) == 10110806,
        telling("property:set"@) == 11611112,
        telling("property:remove"@) == 10111115,
        telling("daily:append"@) == 10010512,
        telling("daily:prepend"@) == 10010513,
        telling("bookmark"@) == 10711108,
        telling("base:create"@) == 10111511,
{
    reveal_strlit("create");
    reveal_strlit("append");
    reveal_strlit("prepend");
    reveal_strlit("move");
    reveal_strlit("rename");
    reveal_strlit("delete");
    reveal_strlit("property:set");
    reveal_strlit("property:remove");
    reveal_strlit("daily:append");
    reveal_strlit("daily:prepend");
    reveal_strlit("bookmark");
    reveal_strlit("base:create");
}

proof fn lemma_blocked()
    ensures
        telling("eval"@) == 10809704,
        telling("history:restore"@) == 10111515,
        telling("plugin:enable"@) == 10111713,
        telling("plugin:disable"@) == 10111714,
        telling("plugin:install"@) == 10811714,
        telling("plugin:uninstall"@) == 10811716,
        telling("plugin:reload"@) == 10011713,
        telling("plugins:restrict"@) == 11611716,
        telling("publish:add"@) == 10009811,
        telling("publish:remove"@) == 10109814,
        telling("sync"@) == 9911004,
        telling("reload"@) == 10010806,
        telling("restart"@) == 11611507,
        telling("devtools"@) == 11511808,
        telling("dev:screenshot"@) == 11611814,
{
    reveal_strlit("eval");
    reveal_strlit("history:restore");
    reveal_strlit("plugin:enable");
    reveal_strlit("plugin:disable");
    reveal_strlit("plugin:install");
    reveal_strlit("plugin:uninstall");
    reveal_strlit("plugin:reload");
    reveal_strlit("plugins:restrict");
    reveal_strlit("publish:add");
    reveal_strlit("publish:remove");
    reveal_strlit("sync");
    reveal_strlit("reload");
    reveal_strlit("restart");
    reveal_strlit("devtools");
    reveal_strlit("dev:screenshot");
}

proof fn lemma_tellings()
    ensures
        forall|i: int, j: int|
            0 <= i < read_commands().len() && 0 <= j < write_commands().len() ==> (
            #[trigger] read_commands()[i]) != (#[trigger] write_commands()[j]),
        forall|i: int, j: int|
            0 <= i < read_commands().len() && 0 <= j < blocked_commands().len() ==> (
            #[trigger] read_commands()[i]) != (#[trigger] blocked_commands()[j]),
        forall|i: int, j: int|
            0 <= i < write_commands().len() && 0 <= j < blocked_commands().len() ==> (
            #[trigger] write_commands()[i]) != (#[trigger] blocked_commands()[j]),
{
    lemma_reads();
    lemma_writes();
    lemma_blocked();
}

/// The commands that change the vault are these and no others.
pub proof fn law_write_commands(cmd: Seq<char>)
    ensures
        class_of(cmd) == Classification::Write <==> (cmd == "create"@
            || cmd == "append"@
            || cmd == "prepend"@
            || cmd == "move"@
            || cmd == "rename"@
            || cmd == "delete"@
            || cmd == "property:set"@
            || cmd == "property:remove"@
            || cmd == "daily:append"@
            || cmd == "daily:prepend"@
            || cmd == "bookmark"@
            || cmd == "base:create"@),
{
    lemma_tellings();
    assert(write_commands()[0] == "create"@);
    assert(write_commands()[1] == "append"@);
    assert(write_commands()[2] == "prepend"@);
    assert(write_commands()[3] == "move"@);
    assert(write_commands()[4] == "rename"@);
    assert(write_commands()[5] == "delete"@);
    assert(write_commands()[6] == "property:set"@);
    assert(write_commands()[7] == "property:remove"@);
    assert(write_commands()[8] == "daily:append"@);
    assert(write_commands()[9] == "daily:prepend"@);
    assert(write_commands()[10] == "bookmark"@);
    assert(write_commands()[11] == "base:create"@);
}

/// The commands that only read are these and no others.
pub proof fn law_read_commands(cmd: Seq<char>)
    ensures
        class_of(cmd) == Classification::Read <==> (cmd == "file"@
            || cmd == "files"@
            || cmd == "folder"@
            || cmd == "folders"@
            || cmd == "read"@
            || cmd == "outline"@
            || cmd == "search"@
            || cmd == "search:context"@
            || cmd == "backlinks"@
            || cmd == "links"@
            || cmd == "unresolved"@
            || cmd == "orphans"@
            || cmd == "deadends"@
            || cmd == "tags"@
            || cmd == "aliases"@
            || cmd == "properties"@
            || cmd == "property:read"@
            || cmd == "daily:path"@
            || cmd == "daily:read"@
            || cmd == "bases"@
            || cmd == "base:views"@
            || cmd == "base:query"@
            || cmd == "bookmarks"@
            || cmd == "diff"@
            || cmd == "history"@
            || cmd == "history:list"@
            || cmd == "history:read"@
            || cmd == "version"@
            || cmd == "help"@),
{
    lemma_tellings();
    assert(read_commands()[0] == "file"@);
    assert(read_commands()[1] == "files"@);
    assert(read_commands()[2] == "folder"@);
    assert(read_commands()[3] == "folders"@);
    assert(read_commands()[4] == "read"@);
    assert(read_commands()[5] == "outline"@);
    assert(read_commands()[6] == "search"@);
    assert(read_commands()[7] == "search:context"@);
    assert(read_commands()[8] == "backlinks"@);
    assert(read_commands()[9] == "links"@);
    assert(read_commands()[10] == "unresolved"@);
    assert(read_commands()[11] == "orphans"@);
    assert(read_commands()[12] == "deadends"@);
    assert(read_commands()[13] == "tags"@);
    assert(read_commands()[14] == "aliases"@);
    assert(read_commands()[15] == "properties"@);
    assert(read_commands()[16] == "property:read"@);
    assert(read_commands()[17] == "daily:path"@);
    assert(read_commands()[18] == "daily:read"@);
    assert(read_commands()[19] == "bases"@);
    assert(read_commands()[20] == "base:views"@);
    assert(read_commands()[21] == "base:query"@);
    assert(read_commands()[22] == "bookmarks"@);
    assert(read_commands()[23] == "diff"@);
    assert(read_commands()[24] == "history"@);
    assert(read_commands()[25] == "history:list"@);
    assert(read_commands()[26] == "history:read"@);
    assert(read_commands()[27] == "version"@);
    assert(read_commands()[28] == "help"@);
}

/// The commands that are never passed on are these; they are not merely unknown.
pub proof fn law_blocked_commands(cmd: Seq<char>)
    ensures
        class_of(cmd) == Classification::Blocked <==> (cmd == "eval"@
            || cmd == "history:restore"@
            || cmd == "plugin:enable"@
            || cmd == "plugin:disable"@
            || cmd == "plugin:install"@
            || cmd == "plugin:uninstall"@
            || cmd == "plugin:reload"@
            || cmd == "plugins:restrict"@
            || cmd == "publish:add"@
            || cmd == "publish:remove"@
            || cmd == "sync"@
            || cmd == "reload"@
            || cmd == "restart"@
            || cmd == "devtools"@
            || cmd == "dev:screenshot"@),
{
}

// ---------------------------------------------------------------- the mode

/// The mode is what the environment says, in any case of letters and with white space
/// around it; where it says nothing, writes are carried out.
pub proof fn law_mode(v: Option<String>)
    ensures
        v is None ==> mode_asked(v) == Ok::<Mode, Seq<char>>(Mode::Apply),
        v matches Some(m) ==> {
            &&& mode_asked(v) == Ok::<Mode, Seq<char>>(Mode::Shadow) <==> lower_ascii(trim(m@))
                == "shadow"@
            &&& mode_asked(v) == Ok::<Mode, Seq<char>>(Mode::Apply) <==> lower_ascii(trim(m@))
                == "apply"@
        },
{
    reveal_strlit("apply");
    reveal_strlit("shadow");
    let word = "apply"@;
    let e = Seq::<char>::empty();
    assert(e + word + e =~= word);
    assert(word.len() == 5);
    assert("shadow"@.len() == 6);
    law_trim(e, word, e);
    assert(lower_ascii(word) =~= word);
}

/// Whether the environment asks for shadow mode.
pub open spec fn asks_for_shadow(env: WrapperEnv) -> bool {
    env.agent_mode matches Some(m) && lower_ascii(trim(m@)) == "shadow"@
}

/// Whether the environment asks for apply mode: by its word, or by saying nothing.
pub open spec fn asks_for_apply(env: WrapperEnv) -> bool {
    match env.agent_mode {
        Some(m) => lower_ascii(trim(m@)) == "apply"@,
        None => true,
    }
}

// ---------------------------------------------------------------- writes

/// A command that changes the vault is never passed on as one that reads. In shadow mode
/// it is recorded or refused, in apply mode it is passed on and recorded, or refused.
pub proof fn law_writes_are_recorded(words: Seq<Seq<char>>, env: WrapperEnv)
    requires
        words.len() > 0,
        words[0] == "create"@
            || words[0] == "append"@
            || words[0] == "prepend"@
            || words[0] == "move"@
            || words[0] == "rename"@
            || words[0] == "delete"@
            || words[0] == "property:set"@
            || words[0] == "property:remove"@
            || words[0] == "daily:append"@
            || words[0] == "daily:prepend"@
            || words[0] == "bookmark"@
            || words[0] == "base:create"@,
    ensures
        !(decision(words, env) is PassRead),
        (env.agent_mode matches Some(m) && lower_ascii(trim(m@)) == "shadow"@) ==> decision(
            words,
            env,
        ) is RecordOnly || decision(words, env) is Refuse,
        (env.agent_mode matches Some(m) ==> lower_ascii(trim(m@)) == "apply"@) ==> decision(
            words,
            env,
        ) is PassWrite || decision(words, env) is Refuse,
{
    law_write_commands(words[0]);
    law_mode(env.agent_mode);
}

/// What is passed on or recorded is the command as it was given, and it is recorded in
/// the plan file that the environment names.
pub proof fn law_command_is_kept(words: Seq<Seq<char>>, env: WrapperEnv)
    requires
        words.len() > 0,
    ensures
        match decision(words, env) {
            DecisionView::Refuse(_) => true,
            DecisionView::PassRead { cmd, args } => seq![cmd] + args == words,
            DecisionView::PassWrite { plan_file, cmd, args } => seq![cmd] + args == words && (
            env.plan_file matches Some(p) && plan_file == trim(p@)),
            DecisionView::RecordOnly { plan_file, cmd, args } => seq![cmd] + args == words && (
            env.plan_file matches Some(p) && plan_file == trim(p@)),
        },
{
    assert(seq![words[0]] + words.skip(1) =~= words);
    if env.plan_file is None {
        let e = Seq::<char>::empty();
        law_trim(e, e, e);
        assert(e + e + e =~= e);
    }
}

/// Nothing is passed on or recorded without a plan file or with a mode that is none.
pub proof fn law_no_plan_no_command(words: Seq<Seq<char>>, env: WrapperEnv)
    requires
        env.plan_file is None || trim(env.plan_file->0@).len() == 0 || (env.agent_mode matches Some(m)
            && lower_ascii(trim(m@)) != "shadow"@ && lower_ascii(trim(m@)) != "apply"@),
    ensures
        decision(words, env) is Refuse,
{
    law_mode(env.agent_mode);
    let e = Seq::<char>::empty();
    law_trim(e, e, e);
    assert(e + e + e =~= e);
}

/// Whether `place` lies at or below `dir`.
pub open spec fn lies_in(place: Seq<char>, dir: Seq<char>) -> bool {
    components(dir).len() <= components(place).len() && components(place).take(
        components(dir).len() as int,
    ) == components(dir)
}

/// Whether a value, seen from the vault, names a place that the environment lets the
/// agent write: in the vault, not in the sources, and in the agent's directory where one
/// is set.
pub open spec fn may_write(value: Seq<char>, env: WrapperEnv) -> bool {
    let vault = normal(trim(env.vault_root->0@));
    let place = normal(join(vault, value));
    &&& lies_in(place, vault)
    &&& !lies_in(place, normal(trim(env.sources_dir->0@)))
    &&& (env.agent_root matches Some(a) ==> (trim(a@).len() > 0 ==> lies_in(
        place,
        normal(trim(a@)),
    )))
}

/// Whether the environment sets the vault and the sources.
pub open spec fn bounded(env: WrapperEnv) -> bool {
    &&& env.vault_root is Some && trim(env.vault_root->0@).len() > 0
    &&& env.sources_dir is Some && trim(env.sources_dir->0@).len() > 0
}

proof fn lemma_value(value: Seq<char>, env: WrapperEnv, z: Zone)
    requires
        bounded(env),
        zone_of(env) == Some(z),
    ensures
        value_fault(value, z) is None <==> may_write(value, env),
{
    let vault = normal(trim(env.vault_root->0@));
    let place = normal(join(vault, value));
    let e = Seq::<char>::empty();
    law_trim(e, e, e);
    assert(e + e + e =~= e);
    assert(z.vault == vault);
    let p = components(place);
    let dirs = seq![vault, normal(trim(env.sources_dir->0@)), normal(trim(env.agent_root->0@))];
    assert forall|i: int| 0 <= i < 3 implies (lies_in(place, #[trigger] dirs[i]) <==> components(
        dirs[i],
    ).is_prefix_of(p)) by {
        let d = components(dirs[i]);
        if d.len() <= p.len() {
            assert(p.subrange(0, d.len() as int) =~= p.take(d.len() as int));
        }
    }
    assert(dirs[0] == vault && dirs[1] == normal(trim(env.sources_dir->0@)));
    assert(dirs[2] == normal(trim(env.agent_root->0@)));
}

proof fn lemma_bounded(env: WrapperEnv)
    requires
        bounded(env),
    ensures
        zone_of(env) is Some,
{
}

/// A command that changes the vault is refused where one of its tokens names a place
/// that the agent may not write: `path` and `to` always name a place, `file` and `name`
/// where they hold a slash.
pub proof fn law_misplaced_write_is_refused(
    words: Seq<Seq<char>>,
    env: WrapperEnv,
    i: int,
    key: Seq<char>,
    value: Seq<char>,
)
    requires
        1 <= i < words.len(),
        words[0] == "create"@
            || words[0] == "append"@
            || words[0] == "prepend"@
            || words[0] == "move"@
            || words[0] == "rename"@
            || words[0] == "delete"@
            || words[0] == "property:set"@
            || words[0] == "property:remove"@
            || words[0] == "daily:append"@
            || words[0] == "daily:prepend"@
            || words[0] == "bookmark"@
            || words[0] == "base:create"@,
        words[i] == key + seq!['='] + value,
        key == "path"@ || key == "to"@ || ((key == "file"@ || key == "name"@) && value.contains(
            '/',
        )),
        env.vault_root is Some && trim(env.vault_root->0@).len() > 0,
        env.sources_dir is Some && trim(env.sources_dir->0@).len() > 0,
        ({
            let vault = normal(trim(env.vault_root->0@));
            let place = components(normal(join(vault, value)));
            let sources = components(normal(trim(env.sources_dir->0@)));
            ||| !components(vault).is_prefix_of(place)
            ||| sources.is_prefix_of(place)
            ||| (env.agent_root matches Some(a) && trim(a@).len() > 0 && !components(
                normal(trim(a@)),
            ).is_prefix_of(place))
        }),
    ensures
        decision(words, env) is Refuse,
{
    law_write_commands(words[0]);
    lemma_bounded(env);
    let z = zone_of(env)->0;
    let args = words.skip(1);
    assert(args[i - 1] == words[i]);
    let e = Seq::<char>::empty();
    law_trim(e, e, e);
    assert(e + e + e =~= e);
    lemma_keys();
    lemma_token(key, value);
    if value.contains('/') {
        let k = choose|k: int| 0 <= k < value.len() && value[k] == '/';
        reveal_strlit("/");
        law_parts_are_found(value.take(k), "/"@, value.skip(k + 1));
        assert(value.take(k) + "/"@ + value.skip(k + 1) =~= value);
    }
    assert(names_place(key, value));
    assert(token_place_fault(words[i], key, z) is Some);
    lemma_key_fault(args, key, z, 0, i - 1);
    let n = choose|n: int| 0 <= n < path_keys().len() && path_keys()[n] == key;
    lemma_place_fault(args, z, 0, n);
}

proof fn lemma_keys()
    ensures
        path_keys().contains("path"@),
        path_keys().contains("to"@),
        path_keys().contains("file"@),
        path_keys().contains("name"@),
{
    assert(path_keys()[0] == "path"@);
    assert(path_keys()[1] == "to"@);
    assert(path_keys()[2] == "file"@);
    assert(path_keys()[3] == "name"@);
}

proof fn lemma_token(key: Seq<char>, value: Seq<char>)
    requires
        key == "path"@ || key == "to"@ || key == "file"@ || key == "name"@,
    ensures
        token_value(key + seq!['='] + value, key) == Some(value),
{
    reveal_strlit("path");
    reveal_strlit("to");
    reveal_strlit("file");
    reveal_strlit("name");
    assert(!key.contains('='));
    law_split_once(key, '=', value);
    let e = Seq::<char>::empty();
    assert(e + key + e =~= key);
    law_trim(e, key, e);
}

proof fn lemma_key_fault(args: Seq<Seq<char>>, key: Seq<char>, z: Zone, from: int, i: int)
    requires
        0 <= from <= i < args.len(),
        token_place_fault(args[i], key, z) is Some,
    ensures
        key_fault(args, key, z, from) is Some,
    decreases i - from,
{
    if from < i {
        lemma_key_fault(args, key, z, from + 1, i);
    }
}

proof fn lemma_place_fault(args: Seq<Seq<char>>, z: Zone, from: int, n: int)
    requires
        0 <= from <= n < path_keys().len(),
        key_fault(args, path_keys()[n], z, 0) is Some,
    ensures
        place_fault(args, z, from) is Some,
    decreases n - from,
{
    if from < n {
        lemma_place_fault(args, z, from + 1, n);
    }
}

proof fn lemma_syntax_clean(args: Seq<Seq<char>>, write: bool, from: int)
    requires
        0 <= from,
        forall|i: int| 0 <= i < args.len() ==> (#[trigger] args[i]).len() == 0 || args[i][0] != '-',
    ensures
        syntax_fault(args, write, from) is None,
    decreases args.len() - from,
{
    if from < args.len() {
        let tok = args[from];
        if starts_with(tok, "--"@) {
            reveal_strlit("--");
            law_found_is_a_part(tok, "--"@);
            assert(tok[0] == "--"@[0]);
        }
        lemma_syntax_clean(args, write, from + 1);
    }
}

proof fn lemma_places_clean(args: Seq<Seq<char>>, env: WrapperEnv, z: Zone, from: int, n: int)
    requires
        0 <= from,
        0 <= n < path_keys().len(),
        bounded(env),
        zone_of(env) == Some(z),
        forall|i: int, a: Seq<char>, v: Seq<char>|
            0 <= i < args.len() && #[trigger] args[i] == #[trigger] (a + seq!['='] + v) && !a.contains('=')
                ==> may_write(v, env),
    ensures
        key_fault(args, path_keys()[n], z, from) is None,
    decreases args.len() - from,
{
    if from < args.len() {
        let tok = args[from];
        match token_value(tok, path_keys()[n]) {
            Some(v) => {
                let (k, _) = split_once(tok, '=')->0;
                crate::text::lemma_index_of(tok, '=');
                assert(tok =~= k + seq!['='] + v);
                assert(!k.contains('='));
                lemma_value(v, env, z);
            },
            None => {},
        }
        lemma_places_clean(args, env, z, from + 1, n);
    }
}

proof fn lemma_no_place_fault(args: Seq<Seq<char>>, env: WrapperEnv, z: Zone, from: int)
    requires
        0 <= from,
        bounded(env),
        zone_of(env) == Some(z),
        forall|i: int, a: Seq<char>, v: Seq<char>|
            0 <= i < args.len() && #[trigger] args[i] == #[trigger] (a + seq!['='] + v) && !a.contains('=')
                ==> may_write(v, env),
    ensures
        place_fault(args, z, from) is None,
    decreases path_keys().len() - from,
{
    if from < path_keys().len() {
        lemma_places_clean(args, env, z, 0, from);
        lemma_no_place_fault(args, env, z, from + 1);
    }
}

/// A command that changes the vault is taken where its tokens start with no dash and what
/// they name lies where the agent may write: it is recorded in shadow mode, and passed on
/// in apply mode.
pub proof fn law_good_write_is_taken(words: Seq<Seq<char>>, env: WrapperEnv)
    requires
        words.len() > 0,
        words[0] == "create"@
            || words[0] == "append"@
            || words[0] == "prepend"@
            || words[0] == "move"@
            || words[0] == "rename"@
            || words[0] == "delete"@
            || words[0] == "property:set"@
            || words[0] == "property:remove"@
            || words[0] == "daily:append"@
            || words[0] == "daily:prepend"@
            || words[0] == "bookmark"@
            || words[0] == "base:create"@,
        env.plan_file is Some && trim(env.plan_file->0@).len() > 0,
        forall|i: int| 1 <= i < words.len() ==> (#[trigger] words[i]).len() == 0 || words[i][0]
            != '-',
        bounded(env),
        forall|i: int, a: Seq<char>, v: Seq<char>|
            1 <= i < words.len() && #[trigger] words[i] == #[trigger] (a + seq!['='] + v) && !a.contains('=')
                ==> may_write(v, env),
    ensures
        asks_for_shadow(env) ==> decision(words, env) == (DecisionView::RecordOnly {
            plan_file: trim(env.plan_file->0@),
            cmd: words[0],
            args: words.skip(1),
        }),
        asks_for_apply(env) ==> decision(words, env) == (DecisionView::PassWrite {
            plan_file: trim(env.plan_file->0@),
            cmd: words[0],
            args: words.skip(1),
        }),
{
    law_write_commands(words[0]);
    law_mode(env.agent_mode);
    lemma_bounded(env);
    let z = zone_of(env)->0;
    let args = words.skip(1);
    assert forall|i: int| 0 <= i < args.len() implies (#[trigger] args[i]).len() == 0 || args[i][0]
        != '-' by {
        assert(args[i] == words[i + 1]);
    }
    lemma_syntax_clean(args, true, 0);
    assert forall|i: int, a: Seq<char>, v: Seq<char>|
        0 <= i < args.len() && #[trigger] args[i] == #[trigger] (a + seq!['='] + v) && !a.contains(
            '=',
        ) implies may_write(v, env) by {
        assert(args[i] == words[i + 1]);
    }
    lemma_no_place_fault(args, env, z, 0);
}

/// A token that starts with a dash is refused in a command that changes the vault; in one
/// that reads, two dashes or a dash and a letter are.
pub proof fn law_flags_are_refused(words: Seq<Seq<char>>, env: WrapperEnv, i: int)
    requires
        1 <= i < words.len(),
        words[i].len() > 0,
        words[i][0] == '-',
        class_of(words[0]) == Classification::Write || (words[i].len() > 1 && (words[i][1] == '-'
            || 'a' <= words[i][1] <= 'z' || 'A' <= words[i][1] <= 'Z')),
    ensures
        decision(words, env) is Refuse,
{
    let args = words.skip(1);
    assert(args[i - 1] == words[i]);
    let tok = words[i];
    if tok.len() > 1 && tok[1] == '-' {
        reveal_strlit("--");
        law_parts_are_found(Seq::empty(), "--"@, tok.skip(2));
        assert("--"@ + tok.skip(2) =~= tok);
    }
    lemma_flag(args, true, 0, i - 1);
    if token_fault(tok, false) is Some {
        lemma_flag(args, false, 0, i - 1);
    }
}

proof fn lemma_flag(args: Seq<Seq<char>>, write: bool, from: int, i: int)
    requires
        0 <= from <= i < args.len(),
        token_fault(args[i], write) is Some,
    ensures
        syntax_fault(args, write, from) is Some,
    decreases i - from,
{
    if from < i {
        lemma_flag(args, write, from + 1, i);
    }
}

/// A command that only reads is passed on in either mode, whatever places it names.
pub proof fn law_reads_pass(words: Seq<Seq<char>>, env: WrapperEnv)
    requires
        words.len() > 0,
        class_of(words[0]) == Classification::Read,
        asks_for_shadow(env) || asks_for_apply(env),
        env.plan_file is Some && trim(env.plan_file->0@).len() > 0,
        forall|i: int| 1 <= i < words.len() ==> (#[trigger] words[i]).len() == 0 || words[i][0]
            != '-',
    ensures
        decision(words, env) == (DecisionView::PassRead { cmd: words[0], args: words.skip(1) }),
{
    law_mode(env.agent_mode);
    let args = words.skip(1);
    assert forall|i: int| 0 <= i < args.len() implies (#[trigger] args[i]).len() == 0 || args[i][0]
        != '-' by {
        assert(args[i] == words[i + 1]);
    }
    lemma_syntax_clean(args, false, 0);
}

/// A command that is neither to read nor to write by name is refused whatever the mode.
pub proof fn law_other_commands_are_refused(words: Seq<Seq<char>>, env: WrapperEnv)
    requires
        words.len() == 0 || (class_of(words[0]) != Classification::Read && class_of(words[0])
            != Classification::Write),
    ensures
        decision(words, env) is Refuse,
{
}

/// What may be passed on is what reads and what writes, and no more.
pub proof fn law_allowlist(cmd: Seq<char>)
    ensures
        allowlist().contains(cmd) <==> class_of(cmd) == Classification::Read || class_of(cmd)
            == Classification::Write,
{
    law_write_commands(cmd);
    law_read_commands(cmd);
    assert(allowlist()[0] == "aliases"@);
    assert(allowlist()[1] == "append"@);
    assert(allowlist()[2] == "backlinks"@);
    assert(allowlist()[3] == "base:create"@);
    assert(allowlist()[4] == "base:query"@);
    assert(allowlist()[5] == "base:views"@);
    assert(allowlist()[6] == "bases"@);
    assert(allowlist()[7] == "bookmark"@);
    assert(allowlist()[8] == "bookmarks"@);
    assert(allowlist()[9] == "create"@);
    assert(allowlist()[10] == "daily:append"@);
    assert(allowlist()[11] == "daily:path"@);
    assert(allowlist()[12] == "daily:prepend"@);
    assert(allowlist()[13] == "daily:read"@);
    assert(allowlist()[14] == "deadends"@);
    assert(allowlist()[15] == "delete"@);
    assert(allowlist()[16] == "diff"@);
    assert(allowlist()[17] == "file"@);
    assert(allowlist()[18] == "files"@);
    assert(allowlist()[19] == "folder"@);
    assert(allowlist()[20] == "folders"@);
    assert(allowlist()[21] == "help"@);
    assert(allowlist()[22] == "history"@);
    assert(allowlist()[23] == "history:list"@);
    assert(allowlist()[24] == "history:read"@);
    assert(allowlist()[25] == "links"@);
    assert(allowlist()[26] == "move"@);
    assert(allowlist()[27] == "orphans"@);
    assert(allowlist()[28] == "outline"@);
    assert(allowlist()[29] == "prepend"@);
    assert(allowlist()[30] == "properties"@);
    assert(allowlist()[31] == "property:read"@);
    assert(allowlist()[32] == "property:remove"@);
    assert(allowlist()[33] == "property:set"@);
    assert(allowlist()[34] == "read"@);
    assert(allowlist()[35] == "rename"@);
    assert(allowlist()[36] == "search"@);
    assert(allowlist()[37] == "search:context"@);
    assert(allowlist()[38] == "tags"@);
    assert(allowlist()[39] == "unresolved"@);
    assert(allowlist()[40] == "version"@);
}

/// A refusal is reported as an error with its message, a recorded command as it was given
/// with the mode in which it was recorded.
pub proof fn law_reports(message: Seq<char>, cmd: Seq<char>, args: Seq<Seq<char>>)
    ensures
        error_fields(message).contains(("error"@, json::FieldView::Text(message))),
        error_fields(message).contains(("status"@, json::FieldView::Text("error"@))),
        shadow_fields(cmd, args).contains(("status"@, json::FieldView::Text("ok"@))),
        shadow_fields(cmd, args).contains(("mode"@, json::FieldView::Text("shadow"@))),
        shadow_fields(cmd, args).contains(("cmd"@, json::FieldView::Text(cmd))),
        shadow_fields(cmd, args).contains(("args"@, json::FieldView::Texts(args))),
{
    let e = error_fields(message);
    assert(e[0] == ("error"@, json::FieldView::Text(message)));
    assert(e[1] == ("status"@, json::FieldView::Text("error"@)));
    let s = shadow_fields(cmd, args);
    assert(s[4] == ("status"@, json::FieldView::Text("ok"@)));
    assert(s[2] == ("mode"@, json::FieldView::Text("shadow"@)));
    assert(s[1] == ("cmd"@, json::FieldView::Text(cmd)));
    assert(s[0] == ("args"@, json::FieldView::Texts(args)));
}

} // verus!
