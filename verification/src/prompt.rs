//! The prompt that the agent is sent, and the programs that it may call.

use vstd::prelude::*;
use vstd::string::*;

use crate::driver::AgentInput;
use crate::number;
use crate::number::integer_text;
use crate::paths;
use crate::paths::join_path;
use crate::text;

verus! {

/// The programs, besides the policy wrapper, that the agent may call by name.
pub open spec fn agent_path_binaries() -> Seq<Seq<char>> {
    seq![
        "cat"@,
        "head"@,
        "tail"@,
        "sed"@,
        "grep"@,
        "awk"@,
        "wc"@,
        "printf"@,
        "echo"@,
        "sort"@,
        "uniq"@,
        "tr"@,
        "sh"@,
        "bash"@,
        "env"@,
        "true"@,
        "false"@,
        "basename"@,
        "dirname"@,
        "date"@,
        "jq"@,
        "node"@,
        "npm"@,
        "npx"@,
    ]
}

/// The programs, besides the policy wrapper, that the agent may call by name.
pub fn agent_path_binaries_list() -> (r: Vec<&'static str>)
    ensures
        text::literals(r@) == agent_path_binaries(),
{
    let r: Vec<&'static str> = vec![
        "cat",
        "head",
        "tail",
        "sed",
        "grep",
        "awk",
        "wc",
        "printf",
        "echo",
        "sort",
        "uniq",
        "tr",
        "sh",
        "bash",
        "env",
        "true",
        "false",
        "basename",
        "dirname",
        "date",
        "jq",
        "node",
        "npm",
        "npx",
    ];
    assert(text::literals(r@) =~= agent_path_binaries());
    r
}

/// The prompt for one run: the call of the skill, the job, and the workflow.
pub open spec fn user_prompt(inp: AgentInput) -> Seq<char> {
    "/skill:knowledge-builder-integrator\n\nPer-job context:\n  extracted_path  = "@
        + inp.extracted_path@ + "\n  source_basename = "@ + inp.source_basename@
        + "\n  vault_root      = "@ + inp.vault_root@ + "\n  sources_dir     = "@
        + inp.sources_dir@ + "\n  agent_root      = "@ + inp.agent_root@
        + "\n  mode            = "@ + inp.mode@ + "\n  job_id          = "@ + number::decimal(
        inp.job_id as int,
    )
        + "\n\nRequired workflow:\n  1. Read the extracted content with `cat`.\n  2. Survey existing structure: `kb-obsidian folders folder=KnowledgeBase`,\n     `kb-obsidian tags counts`.\n  3. For overlap detection: at least one `kb-obsidian search query=...`.\n  4. **Issue at least one `kb-obsidian create path=KnowledgeBase/...`\n     (or append/move/etc.) command** to actually integrate the content.\n     A textual summary alone is NOT a successful integration.\n  5. Optionally set frontmatter properties with `kb-obsidian property:set\n     name=... value=... file=...`.\n  6. Emit a brief final summary message and stop.\n\nAll vault operations MUST go through the `kb-obsidian` wrapper.  Do not\nuse `cat >`, `tee`, redirects, or any other shell tricks to write into\nthe vault — those are detected and reported as rogue writes.\n"@
}

/// The prompt for one run.
pub fn build_user_prompt(inp: &AgentInput) -> (r: String)
    ensures
        r@ == user_prompt(*inp),
{
    let mut s = String::from_str(
        "/skill:knowledge-builder-integrator\n\nPer-job context:\n  extracted_path  = ",
    );
    s.append(inp.extracted_path.as_str());
    s.append("\n  source_basename = ");
    s.append(inp.source_basename.as_str());
    s.append("\n  vault_root      = ");
    s.append(inp.vault_root.as_str());
    s.append("\n  sources_dir     = ");
    s.append(inp.sources_dir.as_str());
    s.append("\n  agent_root      = ");
    s.append(inp.agent_root.as_str());
    s.append("\n  mode            = ");
    s.append(inp.mode.as_str());
    s.append("\n  job_id          = ");
    s.append(integer_text(inp.job_id).as_str());
    s.append(
        "\n\nRequired workflow:\n  1. Read the extracted content with `cat`.\n  2. Survey existing structure: `kb-obsidian folders folder=KnowledgeBase`,\n     `kb-obsidian tags counts`.\n  3. For overlap detection: at least one `kb-obsidian search query=...`.\n  4. **Issue at least one `kb-obsidian create path=KnowledgeBase/...`\n     (or append/move/etc.) command** to actually integrate the content.\n     A textual summary alone is NOT a successful integration.\n  5. Optionally set frontmatter properties with `kb-obsidian property:set\n     name=... value=... file=...`.\n  6. Emit a brief final summary message and stop.\n\nAll vault operations MUST go through the `kb-obsidian` wrapper.  Do not\nuse `cat >`, `tee`, redirects, or any other shell tricks to write into\nthe vault — those are detected and reported as rogue writes.\n",
    );
    s
}

// ---------------------------------------------------------------- staging

/// A path at which a program was looked for.
#[derive(Debug, Clone)]
pub struct Candidate {
    pub path: String,
    /// Whether a regular file is there.
    pub is_file: bool,
}

/// Where a program is looked for: at its own path where that is absolute, then in
/// each directory in order.
pub open spec fn search_list(name: Seq<char>, dirs: Seq<Seq<char>>) -> Seq<Seq<char>> {
    (if paths::absolute(name) {
        seq![name]
    } else {
        Seq::empty()
    }) + Seq::new(dirs.len(), |i: int| paths::join(dirs[i], name))
}

/// Where a program is looked for.
pub fn search_places(name: &str, dirs: &Vec<String>) -> (r: Vec<String>)
    ensures
        text::views(r@) == search_list(name@, text::views(dirs@)),
{
    let mut r: Vec<String> = Vec::new();
    if paths::is_absolute(name) {
        r.push(String::from_str(name));
    }
    let ghost first = text::views(r@);
    let ghost ds = text::views(dirs@);
    let mut i: usize = 0;
    while i < dirs.len()
        invariant
            i <= dirs@.len(),
            ds == text::views(dirs@),
            text::views(r@) == first + Seq::new(i as nat, |j: int| paths::join(ds[j], name@)),
        decreases dirs@.len() - i,
    {
        let ghost before = text::views(r@);
        let place = join_path(dirs[i].as_str(), name);
        assert(ds[i as int] == dirs@[i as int]@);
        r.push(place);
        assert(text::views(r@) =~= before.push(place@));
        assert(text::views(r@) =~= first + Seq::new(
            (i + 1) as nat,
            |j: int| paths::join(ds[j], name@),
        ));
        i = i + 1;
    }
    assert(first =~= if paths::absolute(name@) {
        seq![name@]
    } else {
        Seq::empty()
    });
    r
}

/// The first place, from index `from` on, at which a file is.
pub open spec fn first_file(cs: Seq<Candidate>, from: int) -> Option<Seq<char>>
    decreases cs.len() - from,
{
    if from < 0 || from >= cs.len() {
        None
    } else if cs[from].is_file {
        Some(cs[from].path@)
    } else {
        first_file(cs, from + 1)
    }
}

/// The first place at which a file is.
pub fn found_file(cs: &Vec<Candidate>) -> (r: Option<&str>)
    ensures
        match r {
            Some(p) => first_file(cs@, 0) == Some(p@),
            None => first_file(cs@, 0) is None,
        },
{
    let mut i: usize = 0;
    while i < cs.len()
        invariant
            i <= cs@.len(),
            first_file(cs@, 0) == first_file(cs@, i as int),
        decreases cs@.len() - i,
    {
        if cs[i].is_file {
            return Some(cs[i].path.as_str());
        }
        i = i + 1;
    }
    None
}

/// The link to put into the wrapper directory, and what it leads to.
#[derive(Debug, Clone)]
pub struct StagedLink {
    pub name: String,
    pub target: String,
}

/// Whether `links` are the wrapper and those of the listed programs that were found,
/// in order.
pub open spec fn staged(
    wrapper: Seq<char>,
    found: Seq<Option<Seq<char>>>,
    n: nat,
) -> Seq<(Seq<char>, Seq<char>)>
    decreases n,
{
    if n == 0 {
        seq![("kb-obsidian"@, wrapper)]
    } else {
        let before = staged(wrapper, found, (n - 1) as nat);
        match found[n - 1] {
            Some(p) => before.push((agent_path_binaries()[n - 1], p)),
            None => before,
        }
    }
}

/// The views of links.
pub open spec fn link_pairs(v: Seq<StagedLink>) -> Seq<(Seq<char>, Seq<char>)> {
    Seq::new(v.len(), |i: int| (v[i].name@, v[i].target@))
}

/// The views of what was found.
pub open spec fn found_views(v: Seq<Option<String>>) -> Seq<Option<Seq<char>>> {
    Seq::new(v.len(), |i: int| crate::json::text_view(v[i]))
}

/// The complaint where the policy wrapper is not installed.
pub open spec fn no_wrapper() -> Seq<char> {
    "kb-obsidian binary missing on PATH; reinstall kb (it ships two binaries: `kb` and `kb-obsidian`)."@
}

/// The links that make up the wrapper directory: the policy wrapper, which must be
/// there, and those of the listed programs that were found.
pub fn stage_wrapper_links(wrapper: Option<&str>, found: &Vec<Option<String>>) -> (r: Result<
    Vec<StagedLink>,
    String,
>)
    requires
        found@.len() == agent_path_binaries().len(),
    ensures
        match (wrapper, r) {
            (Some(w), Ok(links)) => link_pairs(links@) == staged(
                w@,
                found_views(found@),
                found@.len(),
            ),
            (None, Err(m)) => m@ == no_wrapper(),
            _ => false,
        },
{
    let w = match wrapper {
        Some(w) => w,
        None => {
            return Err(
                String::from_str(
                    "kb-obsidian binary missing on PATH; reinstall kb (it ships two binaries: `kb` and `kb-obsidian`).",
                ),
            );
        },
    };
    let names = agent_path_binaries_list();
    let ghost fs = found_views(found@);
    let mut links: Vec<StagedLink> = Vec::new();
    links.push(
        StagedLink { name: String::from_str("kb-obsidian"), target: String::from_str(w) },
    );
    assert(link_pairs(links@) =~= seq![("kb-obsidian"@, w@)]);
    let mut i: usize = 0;
    while i < found.len()
        invariant
            i <= found@.len(),
            fs == found_views(found@),
            text::literals(names@) == agent_path_binaries(),
            names@.len() == found@.len(),
            link_pairs(links@) == staged(w@, fs, i as nat),
        decreases found@.len() - i,
    {
        assert(fs[i as int] == crate::json::text_view(found@[i as int]));
        if let Some(p) = &found[i] {
            let ghost before = link_pairs(links@);
            assert(agent_path_binaries()[i as int] == text::literals(names@)[i as int]);
            let link = StagedLink { name: String::from_str(names[i]), target: p.clone() };
            links.push(link);
            assert(link_pairs(links@) =~= before.push((link.name@, link.target@)));
        }
        i = i + 1;
    }
    Ok(links)
}

} // verus!
