//! One run of the agent: how its process is started, how its events are taken in,
//! and what comes of it.

use vstd::prelude::*;
use vstd::string::*;

use crate::env_map::EnvMap;
use crate::json;
use crate::json::{debug_of_member, kind_of_json, member_of_json, object_text, Field, Member};
use crate::number;
use crate::number::{parse_unsigned, unsigned_text};
use crate::paths;
use crate::paths::join_path;
use crate::plan::{Plan, PlanParseError};
use crate::prompt;
use crate::prompt::{build_user_prompt, found_file, Candidate};
use crate::text;
use crate::text::{clipped, joined, quote, same_text, split_at_first, trimmed};

verus! {

// ---------------------------------------------------------------- errors

/// Why a run of the agent failed.
#[derive(Debug, Clone)]
pub enum AgentError {
    /// The API key is not set.
    MissingApiKey,
    /// The agent's program was not found.
    PiNotFound { bin: String },
    /// The agent's program could not be started.
    PiSpawn { bin: String, source: String },
    /// The agent's program said something that it should not say.
    Protocol(String),
    /// The time ran out before anything was planned.
    Budget { timeout_secs: u64 },
    /// The plan could not be read.
    PlanCorrupt(PlanParseError),
    /// A directory for the run could not be set up.
    SkillsStaging(String),
    /// The model or the mode is not of the expected form.
    BadModel(String),
    /// A file could not be read or written.
    Io(String),
}

impl AgentError {
    /// The message that a user sees.
    pub open spec fn text(&self) -> Seq<char> {
        match *self {
            AgentError::MissingApiKey =>
                "OPENROUTER_API_KEY is not set in the daemon's environment.  Add it to ~/.config/knowledge-builder/secrets.env."@,
            AgentError::PiNotFound { bin } => "pi binary "@ + text::quoted(bin@)
                + " not found on PATH.  Install pi-coding-agent or set KB_PI_BIN to the absolute path."@,
            AgentError::PiSpawn { bin, source } => "could not exec pi at "@ + text::quoted(bin@)
                + ": "@ + source@,
            AgentError::Protocol(m) => "pi protocol error: "@ + m@,
            AgentError::Budget { timeout_secs } => "agent timed out after "@ + number::numeral(
                timeout_secs as nat,
            ) + "s without proposing any mutations"@,
            AgentError::PlanCorrupt(e) => "plan file corrupt: "@ + e.text(),
            AgentError::SkillsStaging(m) => "skills staging failed: "@ + m@,
            AgentError::BadModel(m) => "KB_LLM_MODEL has bad shape: "@ + m@,
            AgentError::Io(m) => "agent I/O error: "@ + m@,
        }
    }

    /// The message that a user sees.
    pub fn message(&self) -> (r: String)
        ensures
            r@ == self.text(),
    {
        match self {
            AgentError::MissingApiKey => String::from_str(
                "OPENROUTER_API_KEY is not set in the daemon's environment.  Add it to ~/.config/knowledge-builder/secrets.env.",
            ),
            AgentError::PiNotFound { bin } => {
                let mut s = String::from_str("pi binary ");
                s.append(quote(bin.as_str()).as_str());
                s.append(
                    " not found on PATH.  Install pi-coding-agent or set KB_PI_BIN to the absolute path.",
                );
                s
            },
            AgentError::PiSpawn { bin, source } => {
                let mut s = String::from_str("could not exec pi at ");
                s.append(quote(bin.as_str()).as_str());
                s.append(": ");
                s.append(source.as_str());
                s
            },
            AgentError::Protocol(m) => {
                let mut s = String::from_str("pi protocol error: ");
                s.append(m.as_str());
                s
            },
            AgentError::Budget { timeout_secs } => {
                let mut s = String::from_str("agent timed out after ");
                s.append(unsigned_text(*timeout_secs).as_str());
                s.append("s without proposing any mutations");
                s
            },
            AgentError::PlanCorrupt(e) => {
                let mut s = String::from_str("plan file corrupt: ");
                s.append(e.message().as_str());
                s
            },
            AgentError::SkillsStaging(m) => {
                let mut s = String::from_str("skills staging failed: ");
                s.append(m.as_str());
                s
            },
            AgentError::BadModel(m) => {
                let mut s = String::from_str("KB_LLM_MODEL has bad shape: ");
                s.append(m.as_str());
                s
            },
            AgentError::Io(m) => {
                let mut s = String::from_str("agent I/O error: ");
                s.append(m.as_str());
                s
            },
        }
    }

    /// Whether the job should be tried again later.
    pub fn is_retryable(&self) -> (b: bool)
        ensures
            b == (self is Protocol || self is Budget || self is SkillsStaging || self is Io),
    {
        match self {
            AgentError::Protocol(_) => true,
            AgentError::Budget { .. } => true,
            AgentError::SkillsStaging(_) => true,
            AgentError::Io(_) => true,
            _ => false,
        }
    }
}

// ---------------------------------------------------------------- input

/// Everything that one run needs to know.
#[derive(Debug, Clone)]
pub struct AgentInput {
    /// The extracted document that the agent reads.
    pub extracted_path: String,
    /// The directory of this run.
    pub work_dir: String,
    pub vault_root: String,
    pub sources_dir: String,
    /// The directory that the agent may write to.
    pub agent_root: String,
    /// The name of the source document.
    pub source_basename: String,
    /// The model, as `provider/id`.
    pub model: String,
    pub job_id: i64,
    /// `apply` or `shadow`.
    pub mode: String,
}

/// How long a run may take, in seconds: what the environment says, or ten minutes,
/// and never less than one minute.
pub open spec fn timeout_of(raw: Option<Seq<char>>) -> int {
    let asked = match raw {
        Some(s) => match number::natural_of(text::trim(s)) {
            Some(n) => if n <= u64::MAX {
                n
            } else {
                600
            },
            None => 600,
        },
        None => 600,
    };
    if asked < 60 {
        60
    } else {
        asked
    }
}

/// How long a run may take, in seconds.
pub fn agent_timeout_secs(raw: Option<&str>) -> (r: u64)
    ensures
        r == timeout_of(
            match raw {
                Some(s) => Some(s@),
                None => None,
            },
        ),
{
    let asked: u64 = match raw {
        Some(s) => match parse_unsigned(trimmed(s)) {
            Some(n) => n,
            None => 600,
        },
        None => 600,
    };
    if asked < 60 {
        60
    } else {
        asked
    }
}

/// The name by which the agent's program is looked for.
pub fn pi_name(raw: Option<&str>) -> (r: &str)
    ensures
        match raw {
            Some(s) => r@ == s@,
            None => r@ == "pi"@,
        },
{
    match raw {
        Some(s) => s,
        None => "pi",
    }
}

/// The agent's program: the first of the places at which a file is.
pub fn pi_bin(name: &str, found: &Vec<Candidate>) -> (r: Result<String, AgentError>)
    ensures
        match r {
            Ok(p) => prompt::first_file(found@, 0) == Some(p@),
            Err(AgentError::PiNotFound { bin }) => prompt::first_file(found@, 0) is None && bin@
                == name@,
            Err(_) => false,
        },
{
    match found_file(found) {
        Some(p) => Ok(String::from_str(p)),
        None => Err(AgentError::PiNotFound { bin: String::from_str(name) }),
    }
}

/// The provider and the model of `provider/id`, or what is wrong with it.
pub open spec fn provider_and_model(model: Seq<char>) -> Result<(Seq<char>, Seq<char>), Seq<char>> {
    match text::split_once(model, '/') {
        None => Err(
            "KB_LLM_MODEL must be 'provider/id' format; got "@ + text::quoted(model),
        ),
        Some((p, m)) => if p.len() == 0 || m.len() == 0 {
            Err("KB_LLM_MODEL has empty provider or id: "@ + text::quoted(model))
        } else {
            Ok((p, m))
        },
    }
}

/// The provider and the model of `provider/id`.
pub fn split_provider_model(model: &str) -> (r: Result<(&str, &str), AgentError>)
    ensures
        match provider_and_model(model@) {
            Ok((p, m)) => r matches Ok(x) && x.0@ == p && x.1@ == m,
            Err(t) => r matches Err(AgentError::BadModel(e)) && e@ == t,
        },
{
    match split_at_first(model, '/') {
        None => {
            let mut m = String::from_str("KB_LLM_MODEL must be 'provider/id' format; got ");
            m.append(quote(model).as_str());
            Err(AgentError::BadModel(m))
        },
        Some((p, rest)) => {
            if p.is_empty() || rest.is_empty() {
                let mut m = String::from_str("KB_LLM_MODEL has empty provider or id: ");
                m.append(quote(model).as_str());
                return Err(AgentError::BadModel(m));
            }
            Ok((p, rest))
        },
    }
}

/// Whether a mode is one of the two.
pub open spec fn is_mode(m: Seq<char>) -> bool {
    m == "shadow"@ || m == "apply"@
}

/// Refuses a mode that is neither of the two.
pub fn check_mode(inp: &AgentInput) -> (r: Result<(), AgentError>)
    ensures
        match r {
            Ok(_) => is_mode(inp.mode@),
            Err(AgentError::BadModel(m)) => !is_mode(inp.mode@) && m@
                == "AgentInput.mode must be 'shadow' or 'apply'; got "@ + text::quoted(inp.mode@),
            Err(_) => false,
        },
{
    if same_text(inp.mode.as_str(), "shadow") || same_text(inp.mode.as_str(), "apply") {
        Ok(())
    } else {
        let mut m = String::from_str("AgentInput.mode must be 'shadow' or 'apply'; got ");
        m.append(quote(inp.mode.as_str()).as_str());
        Err(AgentError::BadModel(m))
    }
}

// ---------------------------------------------------------------- environment

/// Keys of other providers, which the agent's program must not see.
pub open spec fn provider_keys() -> Seq<Seq<char>> {
    seq![
        "OPENAI_API_KEY"@,
        "ANTHROPIC_API_KEY"@,
        "GOOGLE_API_KEY"@,
        "GEMINI_API_KEY"@,
        "MISTRAL_API_KEY"@,
        "COHERE_API_KEY"@,
        "AWS_ACCESS_KEY_ID"@,
        "AWS_SECRET_ACCESS_KEY"@,
    ]
}

/// An environment.
pub type Vars = Map<Seq<char>, Seq<char>>;

/// An environment without the first `n` keys of other providers.
pub open spec fn stripped(env: Vars, n: nat) -> Vars
    decreases n,
{
    if n == 0 {
        env
    } else {
        stripped(env, (n - 1) as nat).remove(provider_keys()[n - 1])
    }
}

/// Whether a variable is set to something that is not blank.
pub open spec fn says(env: Vars, key: Seq<char>) -> bool {
    env.contains_key(key) && text::trim(env[key]).len() > 0
}

/// The places of one run.
#[derive(Debug, Clone)]
pub struct RunPlaces {
    pub plan_file: String,
    pub agent_log: String,
    pub skills_dir: String,
    pub wrapper_dir: String,
}

/// The environment of the agent's program: that of the daemon without the keys of
/// other providers, with the places of the run, and with only the wrapper directory
/// to look for programs in.
pub open spec fn child_env(
    env: Vars,
    inp: AgentInput,
    places: RunPlaces,
    obsidian: Option<Seq<char>>,
) -> Vars {
    let base = stripped(env, provider_keys().len()).insert(
        "KB_PLAN_FILE"@,
        places.plan_file@,
    ).insert("KB_AGENT_MODE"@, inp.mode@).insert("KB_EXTRACTED"@, inp.extracted_path@).insert(
        "KB_VAULT_ROOT"@,
        inp.vault_root@,
    ).insert("KB_SOURCES_DIR"@, inp.sources_dir@).insert("KB_AGENT_ROOT"@, inp.agent_root@);
    let with_obsidian = match obsidian {
        Some(p) => if says(base, "KB_OBSIDIAN_BIN"@) {
            base
        } else {
            base.insert("KB_OBSIDIAN_BIN"@, p)
        },
        None => base,
    };
    with_obsidian.insert("PATH"@, places.wrapper_dir@)
}

fn says_something(env: &EnvMap, key: &str) -> (b: bool)
    ensures
        b == says(env@, key@),
{
    match env.get(key) {
        Some(v) => !trimmed(v).is_empty(),
        None => false,
    }
}

/// The environment of the agent's program. Without an API key there is none.
pub fn build_subprocess_env(
    env: EnvMap,
    inp: &AgentInput,
    places: &RunPlaces,
    obsidian: Option<&str>,
) -> (r: Result<EnvMap, AgentError>)
    ensures
        match r {
            Ok(e) => says(env@, "OPENROUTER_API_KEY"@) && e@ == child_env(
                env@,
                *inp,
                *places,
                match obsidian {
                    Some(p) => Some(p@),
                    None => None,
                },
            ),
            Err(x) => !says(env@, "OPENROUTER_API_KEY"@) && x == AgentError::MissingApiKey,
        },
{
    let ghost given = env@;
    if !says_something(&env, "OPENROUTER_API_KEY") {
        return Err(AgentError::MissingApiKey);
    }
    let mut env = env;
    let keys: Vec<&'static str> = vec![
        "OPENAI_API_KEY",
        "ANTHROPIC_API_KEY",
        "GOOGLE_API_KEY",
        "GEMINI_API_KEY",
        "MISTRAL_API_KEY",
        "COHERE_API_KEY",
        "AWS_ACCESS_KEY_ID",
        "AWS_SECRET_ACCESS_KEY",
    ];
    assert(text::literals(keys@) =~= provider_keys());
    let mut i: usize = 0;
    while i < keys.len()
        invariant
            i <= keys@.len(),
            text::literals(keys@) == provider_keys(),
            env@ == stripped(given, i as nat),
        decreases keys@.len() - i,
    {
        assert(text::literals(keys@)[i as int] == keys@[i as int]@);
        env.remove(keys[i]);
        i = i + 1;
    }
    assert(i == provider_keys().len());
    env.insert("KB_PLAN_FILE", places.plan_file.as_str());
    env.insert("KB_AGENT_MODE", inp.mode.as_str());
    env.insert("KB_EXTRACTED", inp.extracted_path.as_str());
    env.insert("KB_VAULT_ROOT", inp.vault_root.as_str());
    env.insert("KB_SOURCES_DIR", inp.sources_dir.as_str());
    env.insert("KB_AGENT_ROOT", inp.agent_root.as_str());
    if let Some(p) = obsidian {
        if !says_something(&env, "KB_OBSIDIAN_BIN") {
            env.insert("KB_OBSIDIAN_BIN", p);
        }
    }
    env.insert("PATH", places.wrapper_dir.as_str());
    Ok(env)
}

// ---------------------------------------------------------------- launch

/// Where the plan, the log and the skills of a run are kept.
pub fn run_places(work_dir: &str) -> (r: RunPlaces)
    ensures
        r.plan_file@ == paths::join(work_dir@, ".kb-plan.jsonl"@),
        r.agent_log@ == paths::join(work_dir@, ".agent-events.jsonl"@),
        r.skills_dir@ == paths::join(work_dir@, ".skills"@),
        r.wrapper_dir@ == paths::join(work_dir@, ".agent-bin"@),
{
    RunPlaces {
        plan_file: join_path(work_dir, ".kb-plan.jsonl"),
        agent_log: join_path(work_dir, ".agent-events.jsonl"),
        skills_dir: join_path(work_dir, ".skills"),
        wrapper_dir: join_path(work_dir, ".agent-bin"),
    }
}

/// The arguments of the agent's program.
pub open spec fn pi_args(
    skills_dir: Seq<char>,
    provider: Seq<char>,
    model: Seq<char>,
    api_key: Seq<char>,
) -> Seq<Seq<char>> {
    seq![
        "--mode"@,
        "rpc"@,
        "--no-session"@,
        "--no-context-files"@,
        "--no-extensions"@,
        "--no-prompt-templates"@,
        "--tools"@,
        "bash"@,
        "--skill"@,
        skills_dir,
        "--provider"@,
        provider,
        "--model"@,
        model,
        "--api-key"@,
        api_key,
    ]
}

fn build_args(skills_dir: &str, provider: &str, model: &str, api_key: &str) -> (r: Vec<String>)
    ensures
        text::views(r@) == pi_args(skills_dir@, provider@, model@, api_key@),
{
    let mut r: Vec<String> = Vec::new();
    r.push(String::from_str("--mode"));
    r.push(String::from_str("rpc"));
    r.push(String::from_str("--no-session"));
    r.push(String::from_str("--no-context-files"));
    r.push(String::from_str("--no-extensions"));
    r.push(String::from_str("--no-prompt-templates"));
    r.push(String::from_str("--tools"));
    r.push(String::from_str("bash"));
    r.push(String::from_str("--skill"));
    r.push(String::from_str(skills_dir));
    r.push(String::from_str("--provider"));
    r.push(String::from_str(provider));
    r.push(String::from_str("--model"));
    r.push(String::from_str(model));
    r.push(String::from_str("--api-key"));
    r.push(String::from_str(api_key));
    assert(text::views(r@) =~= pi_args(skills_dir@, provider@, model@, api_key@));
    r
}

/// The members of the message that carries the prompt.
pub open spec fn prompt_fields(p: Seq<char>) -> Seq<(Seq<char>, json::FieldView)> {
    seq![
        ("id"@, json::FieldView::Text("kb-prompt-1"@)),
        ("type"@, json::FieldView::Text("prompt"@)),
        ("message"@, json::FieldView::Text(p)),
    ]
}

/// The message that carries the prompt, as one line of JSON.
pub fn prompt_message(inp: &AgentInput) -> (r: String)
    ensures
        r@ == json::object_written(prompt_fields(prompt::user_prompt(*inp))),
        json::reads_back(r@, prompt_fields(prompt::user_prompt(*inp))),
{
    let mut fields: Vec<(String, Field)> = Vec::new();
    fields.push((String::from_str("id"), Field::Text(String::from_str("kb-prompt-1"))));
    fields.push((String::from_str("type"), Field::Text(String::from_str("prompt"))));
    fields.push((String::from_str("message"), Field::Text(build_user_prompt(inp))));
    assert(json::fields_view(fields@) =~= prompt_fields(prompt::user_prompt(*inp)));
    proof {
        reveal_strlit("id");
        reveal_strlit("type");
        reveal_strlit("message");
        json::lemma_plain_names(json::fields_view(fields@));
    }
    object_text(&fields)
}

/// The members of the message that tells the agent's program to stop.
pub open spec fn abort_fields() -> Seq<(Seq<char>, json::FieldView)> {
    seq![("type"@, json::FieldView::Text("abort"@))]
}

/// The message that tells the agent's program to stop, as one line of JSON.
pub fn abort_message() -> (r: String)
    ensures
        r@ == json::object_written(abort_fields()),
        json::reads_back(r@, abort_fields()),
{
    let mut fields: Vec<(String, Field)> = Vec::new();
    fields.push((String::from_str("type"), Field::Text(String::from_str("abort"))));
    assert(json::fields_view(fields@) =~= abort_fields());
    proof {
        reveal_strlit("type");
        json::lemma_plain_names(json::fields_view(fields@));
    }
    object_text(&fields)
}

/// What starts the agent's program.
pub struct Launch {
    pub args: Vec<String>,
    pub env: EnvMap,
    pub provider: String,
    pub model: String,
}

/// What starts the agent's program: its environment first, then the model.
pub fn prepare_launch(
    env: EnvMap,
    inp: &AgentInput,
    places: &RunPlaces,
    obsidian: Option<&str>,
) -> (r: Result<Launch, AgentError>)
    ensures
        !says(env@, "OPENROUTER_API_KEY"@) ==> r == Err::<Launch, AgentError>(
            AgentError::MissingApiKey,
        ),
        says(env@, "OPENROUTER_API_KEY"@) ==> match provider_and_model(inp.model@) {
            Err(t) => r matches Err(AgentError::BadModel(e)) && e@ == t,
            Ok((p, m)) => r matches Ok(l) && l.provider@ == p && l.model@ == m && l.env@
                == child_env(
                env@,
                *inp,
                *places,
                match obsidian {
                    Some(x) => Some(x@),
                    None => None,
                },
            ) && text::views(l.args@) == pi_args(
                places.skills_dir@,
                p,
                m,
                env@["OPENROUTER_API_KEY"@],
            ),
        },
{
    let ghost given = env@;
    let child = match build_subprocess_env(env, inp, places, obsidian) {
        Ok(e) => e,
        Err(_) => {
            return Err(AgentError::MissingApiKey);
        },
    };
    let (provider, model) = match split_provider_model(inp.model.as_str()) {
        Ok(x) => x,
        Err(e) => {
            return Err(e);
        },
    };
    proof {
        law_key_is_passed_on(
            given,
            *inp,
            *places,
            match obsidian {
                Some(x) => Some(x@),
                None => None,
            },
        );
    }
    let api_key = match child.get("OPENROUTER_API_KEY") {
        Some(k) => k,
        None => {
            assert(false);
            ""
        },
    };
    let args = build_args(places.skills_dir.as_str(), provider, model, api_key);
    Ok(
        Launch {
            args,
            env: child,
            provider: String::from_str(provider),
            model: String::from_str(model),
        },
    )
}

/// Lengths by which the names of variables are told apart.
pub(crate) proof fn lemma_names()
    ensures
        forall|i: int|
            0 <= i < provider_keys().len() ==> #[trigger] provider_keys()[i]
                != "OPENROUTER_API_KEY"@ && provider_keys()[i] != "PATH"@ && provider_keys()[i]
                != "KB_PLAN_FILE"@ && provider_keys()[i] != "KB_AGENT_MODE"@ && provider_keys()[i]
                != "KB_EXTRACTED"@ && provider_keys()[i] != "KB_VAULT_ROOT"@ && provider_keys()[i]
                != "KB_SOURCES_DIR"@ && provider_keys()[i] != "KB_AGENT_ROOT"@
                && provider_keys()[i] != "KB_OBSIDIAN_BIN"@,
        "OPENROUTER_API_KEY"@ != "PATH"@,
        "OPENROUTER_API_KEY"@ != "KB_PLAN_FILE"@,
        "OPENROUTER_API_KEY"@ != "KB_AGENT_MODE"@,
        "OPENROUTER_API_KEY"@ != "KB_EXTRACTED"@,
        "OPENROUTER_API_KEY"@ != "KB_VAULT_ROOT"@,
        "OPENROUTER_API_KEY"@ != "KB_SOURCES_DIR"@,
        "OPENROUTER_API_KEY"@ != "KB_AGENT_ROOT"@,
        "OPENROUTER_API_KEY"@ != "KB_OBSIDIAN_BIN"@,
        "PATH"@ != "KB_PLAN_FILE"@,
        "PATH"@ != "KB_AGENT_MODE"@,
        "PATH"@ != "KB_VAULT_ROOT"@,
        "PATH"@ != "KB_SOURCES_DIR"@,
        "PATH"@ != "KB_AGENT_ROOT"@,
{
    reveal_strlit("OPENAI_API_KEY");
    reveal_strlit("ANTHROPIC_API_KEY");
    reveal_strlit("GOOGLE_API_KEY");
    reveal_strlit("GEMINI_API_KEY");
    reveal_strlit("MISTRAL_API_KEY");
    reveal_strlit("COHERE_API_KEY");
    reveal_strlit("AWS_ACCESS_KEY_ID");
    reveal_strlit("AWS_SECRET_ACCESS_KEY");
    reveal_strlit("OPENROUTER_API_KEY");
    reveal_strlit("PATH");
    reveal_strlit("KB_PLAN_FILE");
    reveal_strlit("KB_AGENT_MODE");
    reveal_strlit("KB_EXTRACTED");
    reveal_strlit("KB_VAULT_ROOT");
    reveal_strlit("KB_SOURCES_DIR");
    reveal_strlit("KB_AGENT_ROOT");
    reveal_strlit("KB_OBSIDIAN_BIN");
    assert("OPENROUTER_API_KEY"@.len() == 18);
    assert("PATH"@.len() == 4);
    assert("KB_PLAN_FILE"@[0] == 'K');
    assert("KB_AGENT_MODE"@[0] == 'K');
    assert("KB_EXTRACTED"@[0] == 'K');
    assert("KB_VAULT_ROOT"@[0] == 'K');
    assert("KB_SOURCES_DIR"@[0] == 'K');
    assert("KB_AGENT_ROOT"@[0] == 'K');
    assert("KB_OBSIDIAN_BIN"@[0] == 'K');
    assert("OPENROUTER_API_KEY"@[0] == 'O');
    assert("PATH"@[0] == 'P');
    assert(provider_keys()[0].len() == 14);
    assert(provider_keys()[1].len() == 17);
    assert(provider_keys()[2].len() == 14);
    assert(provider_keys()[3].len() == 14);
    assert(provider_keys()[4].len() == 15);
    assert(provider_keys()[5].len() == 14);
    assert(provider_keys()[6].len() == 17);
    assert(provider_keys()[7].len() == 21);
    assert forall|i: int| 0 <= i < provider_keys().len() implies #[trigger] provider_keys()[i][0]
        != 'K' && provider_keys()[i].len() != 18 && provider_keys()[i].len() != 4 by {
        assert(i == 0 || i == 1 || i == 2 || i == 3 || i == 4 || i == 5 || i == 6 || i == 7);
    }
}

pub(crate) proof fn lemma_names_differ()
    ensures
        "KB_PLAN_FILE"@ != "KB_EXTRACTED"@,
        "PATH"@ != "KB_EXTRACTED"@,
        "KB_PLAN_FILE"@.len() == 12,
        "KB_EXTRACTED"@.len() == 12,
        "KB_AGENT_MODE"@ != "KB_VAULT_ROOT"@,
        "KB_AGENT_MODE"@ != "KB_AGENT_ROOT"@,
        "KB_VAULT_ROOT"@ != "KB_AGENT_ROOT"@,
        "KB_AGENT_MODE"@.len() == 13,
        "KB_VAULT_ROOT"@.len() == 13,
        "KB_AGENT_ROOT"@.len() == 13,
        "KB_SOURCES_DIR"@.len() == 14,
        "KB_OBSIDIAN_BIN"@.len() == 15,
{
    reveal_strlit("PATH");
    reveal_strlit("KB_PLAN_FILE");
    reveal_strlit("KB_EXTRACTED");
    reveal_strlit("KB_AGENT_MODE");
    reveal_strlit("KB_VAULT_ROOT");
    reveal_strlit("KB_AGENT_ROOT");
    reveal_strlit("KB_SOURCES_DIR");
    reveal_strlit("KB_OBSIDIAN_BIN");
    assert("KB_PLAN_FILE"@[3] == 'P');
    assert("KB_EXTRACTED"@[3] == 'E');
    assert("KB_AGENT_MODE"@[9] == 'M');
    assert("KB_AGENT_ROOT"@[9] == 'R');
    assert("KB_AGENT_MODE"@[3] == 'A');
    assert("KB_AGENT_ROOT"@[3] == 'A');
    assert("KB_VAULT_ROOT"@[3] == 'V');
}

pub(crate) proof fn lemma_stripped(env: Vars, n: nat, k: Seq<char>)
    requires
        n <= provider_keys().len(),
    ensures
        stripped(env, n).contains_key(k) <==> env.contains_key(k) && forall|i: int|
            0 <= i < n ==> #[trigger] provider_keys()[i] != k,
        stripped(env, n).contains_key(k) ==> stripped(env, n)[k] == env[k],
    decreases n,
{
    if n > 0 {
        lemma_stripped(env, (n - 1) as nat, k);
    }
}

/// The agent's program gets the API key as the daemon has it, finds programs in the
/// wrapper directory only, is told the mode, where the plan goes, where the text of the
/// document is and the directories that bound it, and sees no key of another provider.
pub proof fn law_key_is_passed_on(
    env: Vars,
    inp: AgentInput,
    places: RunPlaces,
    obsidian: Option<Seq<char>>,
)
    requires
        says(env, "OPENROUTER_API_KEY"@),
    ensures
        ({
            let child = child_env(env, inp, places, obsidian);
            &&& child.contains_key("OPENROUTER_API_KEY"@)
            &&& child["OPENROUTER_API_KEY"@] == env["OPENROUTER_API_KEY"@]
            &&& child.contains_key("PATH"@)
            &&& child["PATH"@] == places.wrapper_dir@
            &&& child.contains_key("KB_AGENT_MODE"@)
            &&& child["KB_AGENT_MODE"@] == inp.mode@
            &&& child.contains_key("KB_PLAN_FILE"@)
            &&& child["KB_PLAN_FILE"@] == places.plan_file@
            &&& child.contains_key("KB_EXTRACTED"@)
            &&& child["KB_EXTRACTED"@] == inp.extracted_path@
            &&& child.contains_key("KB_VAULT_ROOT"@)
            &&& child["KB_VAULT_ROOT"@] == inp.vault_root@
            &&& child.contains_key("KB_SOURCES_DIR"@)
            &&& child["KB_SOURCES_DIR"@] == inp.sources_dir@
            &&& child.contains_key("KB_AGENT_ROOT"@)
            &&& child["KB_AGENT_ROOT"@] == inp.agent_root@
            &&& forall|i: int|
                0 <= i < provider_keys().len() ==> !child.contains_key(
                    #[trigger] provider_keys()[i],
                )
        }),
{
    lemma_names();
    lemma_names_differ();
    let child = child_env(env, inp, places, obsidian);
    lemma_stripped(env, provider_keys().len(), "OPENROUTER_API_KEY"@);
    assert forall|i: int| 0 <= i < provider_keys().len() implies !child.contains_key(
        #[trigger] provider_keys()[i],
    ) by {
        lemma_stripped(env, provider_keys().len(), provider_keys()[i]);
    }
}

// ---------------------------------------------------------------- events

/// What a line of the agent's program says.
#[derive(Debug, Clone)]
pub enum Event {
    /// A turn is over.
    TurnEnd,
    /// A new text starts.
    TextStart,
    /// The text goes on.
    TextDelta(String),
    /// The run is over.
    AgentEnd,
    /// A command was refused: the command as it was shown, and the reason.
    Refused { command: String, error: String },
    /// Nothing that matters here.
    Other,
}

/// An event, over texts.
pub enum EventView {
    TurnEnd,
    TextStart,
    TextDelta(Seq<char>),
    AgentEnd,
    Refused { command: Seq<char>, error: Seq<char> },
    Other,
}

impl View for Event {
    type V = EventView;

    open spec fn view(&self) -> EventView {
        match *self {
            Event::TurnEnd => EventView::TurnEnd,
            Event::TextStart => EventView::TextStart,
            Event::TextDelta(t) => EventView::TextDelta(t@),
            Event::AgentEnd => EventView::AgentEnd,
            Event::Refused { command, error } => EventView::Refused {
                command: command@,
                error: error@,
            },
            Event::Other => EventView::Other,
        }
    }
}

/// The members of a piece of an assistant message.
#[derive(Debug, Clone)]
pub struct PieceMembers {
    pub kind: Option<Member>,
    pub delta: Option<Member>,
}

/// The members of a line that say what happened.
#[derive(Debug, Clone)]
pub struct LineMembers {
    pub kind: Option<Member>,
    /// The piece of an assistant message, where an object stands there.
    pub piece: Option<PieceMembers>,
    pub success: Option<Member>,
    /// The command as it is shown.
    pub command: String,
    pub error: Option<Member>,
}

/// The members of a piece, over texts.
pub struct PieceMembersView {
    pub kind: Option<json::MemberView>,
    pub delta: Option<json::MemberView>,
}

/// The members of a line, over texts.
pub struct LineMembersView {
    pub kind: Option<json::MemberView>,
    pub piece: Option<PieceMembersView>,
    pub success: Option<json::MemberView>,
    pub command: Seq<char>,
    pub error: Option<json::MemberView>,
}

impl View for PieceMembers {
    type V = PieceMembersView;

    open spec fn view(&self) -> PieceMembersView {
        PieceMembersView {
            kind: json::member_view(self.kind),
            delta: json::member_view(self.delta),
        }
    }
}

impl View for LineMembers {
    type V = LineMembersView;

    open spec fn view(&self) -> LineMembersView {
        LineMembersView {
            kind: json::member_view(self.kind),
            piece: match self.piece {
                Some(p) => Some(p@),
                None => None,
            },
            success: json::member_view(self.success),
            command: self.command@,
            error: json::member_view(self.error),
        }
    }
}

/// The text of a member, empty where it is none.
pub open spec fn text_or_none(m: Option<json::MemberView>) -> Seq<char> {
    match json::member_text(m) {
        Some(t) => t,
        None => Seq::empty(),
    }
}

/// What a piece of an assistant message says.
pub open spec fn update_event(p: PieceMembersView) -> EventView {
    if text_or_none(p.kind) == "text_start"@ {
        EventView::TextStart
    } else if text_or_none(p.kind) == "text_delta"@ {
        match json::member_text(p.delta) {
            Some(t) => EventView::TextDelta(t),
            None => EventView::Other,
        }
    } else {
        EventView::Other
    }
}

/// What the members of a line say.
pub open spec fn event_of_members(m: LineMembersView) -> EventView {
    let kind = text_or_none(m.kind);
    if kind == "turn_end"@ {
        EventView::TurnEnd
    } else if kind == "message_update"@ {
        match m.piece {
            Some(p) => update_event(p),
            None => EventView::Other,
        }
    } else if kind == "agent_end"@ {
        EventView::AgentEnd
    } else if kind == "response"@ && json::member_bool(m.success) == Some(false) {
        EventView::Refused { command: m.command, error: text_or_none(m.error) }
    } else {
        EventView::Other
    }
}

/// The members of a line of JSON.
pub open spec fn members_of_line(line: Seq<char>) -> LineMembersView {
    LineMembersView {
        kind: json::json_member(line, "type"@),
        piece: match json::json_member(line, "assistantMessageEvent"@) {
            Some(json::MemberView::Nested(piece)) => Some(
                PieceMembersView {
                    kind: json::json_member(piece, "type"@),
                    delta: json::json_member(piece, "delta"@),
                },
            ),
            _ => None,
        },
        success: json::json_member(line, "success"@),
        command: json::json_debug(line, "command"@),
        error: json::json_member(line, "error"@),
    }
}

/// What a line of JSON says.
pub open spec fn event_of(line: Seq<char>) -> EventView {
    event_of_members(members_of_line(line))
}

fn text_or_empty(m: Option<Member>) -> (r: String)
    ensures
        r@ == text_or_none(json::member_view(m)),
{
    match m {
        Some(Member::Text(t)) => t,
        _ => String::new(),
    }
}

fn update_from(p: PieceMembers) -> (r: Event)
    ensures
        r@ == update_event(p@),
{
    let kind = text_or_empty(p.kind);
    if same_text(kind.as_str(), "text_start") {
        Event::TextStart
    } else if same_text(kind.as_str(), "text_delta") {
        match p.delta {
            Some(Member::Text(t)) => Event::TextDelta(t),
            _ => Event::Other,
        }
    } else {
        Event::Other
    }
}

/// What the members of a line say.
pub fn event_from(m: LineMembers) -> (r: Event)
    ensures
        r@ == event_of_members(m@),
{
    let kind = text_or_empty(m.kind);
    if same_text(kind.as_str(), "turn_end") {
        return Event::TurnEnd;
    }
    if same_text(kind.as_str(), "message_update") {
        return match m.piece {
            Some(p) => update_from(p),
            None => Event::Other,
        };
    }
    if same_text(kind.as_str(), "agent_end") {
        return Event::AgentEnd;
    }
    if same_text(kind.as_str(), "response") {
        if let Some(Member::Bool(false)) = m.success {
            return Event::Refused { command: m.command, error: text_or_empty(m.error) };
        }
    }
    Event::Other
}

/// The complaint about a line that is no JSON: its first two hundred bytes and what
/// the parser said.
pub open spec fn not_json(line: Seq<char>, error: Seq<char>) -> Seq<char> {
    "pi emitted non-JSON line: "@ + text::quoted(text::clip(line, 200)) + " ("@ + error + ")"@
}

/// Reads a line of the agent's program.
pub fn read_event(line: &str) -> (r: Result<Event, AgentError>)
    ensures
        match json::json_kind(line@) {
            Ok(_) => r matches Ok(e) && e@ == event_of(line@),
            Err(x) => r matches Err(AgentError::Protocol(m)) && m@ == not_json(line@, x),
        },
{
    if let Err(x) = kind_of_json(line) {
        let mut m = String::from_str("pi emitted non-JSON line: ");
        let start = clipped(line, 200);
        m.append(quote(start.as_str()).as_str());
        m.append(" (");
        m.append(x.as_str());
        m.append(")");
        return Err(AgentError::Protocol(m));
    }
    let piece = match member_of_json(line, "assistantMessageEvent") {
        Some(Member::Nested(piece)) => Some(
            PieceMembers {
                kind: member_of_json(piece.as_str(), "type"),
                delta: member_of_json(piece.as_str(), "delta"),
            },
        ),
        _ => None,
    };
    let members = LineMembers {
        kind: member_of_json(line, "type"),
        piece,
        success: member_of_json(line, "success"),
        command: debug_of_member(line, "command"),
        error: member_of_json(line, "error"),
    };
    assert(members@ == members_of_line(line@));
    Ok(event_from(members))
}

// ---------------------------------------------------------------- the session

/// What came from the agent's program, or from the clock.
#[derive(Debug, Clone)]
pub enum Input {
    /// A line of output that is not blank.
    Line(String),
    /// The output is over.
    Closed,
    /// The output could not be read.
    Failed(String),
    /// The time is up.
    Deadline,
}

/// What to do next.
#[derive(Debug, Clone, Copy, PartialEq, Eq, Structural)]
pub enum Next {
    /// Read on.
    Continue,
    /// Stop reading.
    Stop,
    /// Tell the program to stop, then stop reading.
    Abort,
}

/// What is known of a run while its output is read.
#[derive(Debug, Clone)]
pub struct Session {
    /// Turns that are over.
    pub turns: u32,
    /// Whether the time ran out.
    pub aborted: bool,
    /// The pieces of the last text of the assistant.
    pub segments: Vec<String>,
}

/// What is known of a run, over texts.
pub struct SessionView {
    pub turns: int,
    pub aborted: bool,
    pub segments: Seq<Seq<char>>,
}

impl View for Session {
    type V = SessionView;

    open spec fn view(&self) -> SessionView {
        SessionView {
            turns: self.turns as int,
            aborted: self.aborted,
            segments: text::views(self.segments@),
        }
    }
}

/// What is known of a run after an event.
pub open spec fn after_event(s: SessionView, e: EventView) -> SessionView {
    match e {
        EventView::TurnEnd => SessionView { turns: s.turns + 1, ..s },
        EventView::TextStart => SessionView { segments: Seq::empty(), ..s },
        EventView::TextDelta(t) => SessionView { segments: s.segments.push(t), ..s },
        _ => s,
    }
}

/// The complaint about a refused command.
pub open spec fn refused(command: Seq<char>, error: Seq<char>) -> Seq<char> {
    "pi reported failure on command "@ + command + ": "@ + error
}

impl Session {
    /// The start of a run.
    pub fn new() -> (r: Session)
        ensures
            r@ == (SessionView { turns: 0, aborted: false, segments: Seq::empty() }),
    {
        let r = Session { turns: 0, aborted: false, segments: Vec::new() };
        assert(text::views(r.segments@) =~= Seq::<Seq<char>>::empty());
        r
    }

    /// Takes an event in. A refused command ends the run with an error, the end of
    /// the agent's work ends it without.
    pub fn apply(&mut self, e: Event) -> (r: Result<Next, AgentError>)
        requires
            old(self).turns < u32::MAX,
        ensures
            final(self)@ == after_event(old(self)@, e@),
            match e@ {
                EventView::Refused { command, error } => r matches Err(AgentError::Protocol(m))
                    && m@ == refused(command, error),
                EventView::AgentEnd => r == Ok::<Next, AgentError>(Next::Stop),
                _ => r == Ok::<Next, AgentError>(Next::Continue),
            },
    {
        let ghost before = text::views(self.segments@);
        match e {
            Event::TurnEnd => {
                self.turns = self.turns + 1;
                Ok(Next::Continue)
            },
            Event::TextStart => {
                self.segments = Vec::new();
                assert(text::views(self.segments@) =~= Seq::<Seq<char>>::empty());
                Ok(Next::Continue)
            },
            Event::TextDelta(t) => {
                let ghost piece = t@;
                self.segments.push(t);
                assert(text::views(self.segments@) =~= before.push(piece));
                Ok(Next::Continue)
            },
            Event::AgentEnd => Ok(Next::Stop),
            Event::Refused { command, error } => {
                let mut m = String::from_str("pi reported failure on command ");
                m.append(command.as_str());
                m.append(": ");
                m.append(error.as_str());
                Err(AgentError::Protocol(m))
            },
            Event::Other => Ok(Next::Continue),
        }
    }

    /// Takes in what came from the agent's program or from the clock.
    pub fn step(&mut self, input: Input) -> (r: Result<Next, AgentError>)
        requires
            old(self).turns < u32::MAX,
        ensures
            match input {
                Input::Line(line) => match json::json_kind(line@) {
                    Err(x) => final(self)@ == old(self)@ && (r matches Err(AgentError::Protocol(m))
                        && m@ == not_json(line@, x)),
                    Ok(_) => final(self)@ == after_event(old(self)@, event_of(line@)) && match event_of(
                        line@,
                    ) {
                        EventView::Refused { command, error } => r matches Err(
                            AgentError::Protocol(m),
                        ) && m@ == refused(command, error),
                        EventView::AgentEnd => r == Ok::<Next, AgentError>(Next::Stop),
                        _ => r == Ok::<Next, AgentError>(Next::Continue),
                    },
                },
                Input::Closed => final(self)@ == old(self)@ && r == Ok::<Next, AgentError>(
                    Next::Stop,
                ),
                Input::Failed(e) => final(self)@ == old(self)@ && (r matches Err(AgentError::Io(m))
                    && m@ == e@),
                Input::Deadline => final(self)@ == (SessionView { aborted: true, ..old(self)@ })
                    && r == Ok::<Next, AgentError>(Next::Abort),
            },
    {
        match input {
            Input::Line(line) => match read_event(line.as_str()) {
                Ok(e) => self.apply(e),
                Err(x) => Err(x),
            },
            Input::Closed => Ok(Next::Stop),
            Input::Failed(e) => Err(AgentError::Io(e)),
            Input::Deadline => {
                self.aborted = true;
                Ok(Next::Abort)
            },
        }
    }

    /// The last text of the assistant.
    pub fn final_text(&self) -> (r: String)
        ensures
            r@ == text::trim(text::join(self@.segments, Seq::empty())),
    {
        proof {
            reveal_strlit("");
            assert(""@ =~= Seq::<char>::empty());
        }
        let all = joined(&self.segments, "");
        String::from_str(trimmed(all.as_str()))
    }
}

/// Whether a line of output is passed over: nothing is recorded of it.
pub fn is_blank_line(line: &str) -> (b: bool)
    ensures
        b == (text::trim(line@).len() == 0),
{
    trimmed(line).is_empty()
}

// ---------------------------------------------------------------- error output

/// How many bytes of the program's error output are kept.
pub const STDERR_DRAIN_LIMIT: usize = 65536;

/// The last bytes of `s`, as many as are kept.
pub open spec fn kept_tail(s: Seq<u8>) -> Seq<u8> {
    if s.len() > STDERR_DRAIN_LIMIT {
        s.skip(s.len() - STDERR_DRAIN_LIMIT)
    } else {
        s
    }
}

/// Adds to the error output and keeps its end.
pub fn keep_tail(buf: &mut Vec<u8>, chunk: &Vec<u8>)
    ensures
        final(buf)@ == kept_tail(old(buf)@ + chunk@),
{
    let ghost before = buf@;
    let mut i: usize = 0;
    while i < chunk.len()
        invariant
            i <= chunk@.len(),
            buf@ == before + chunk@.take(i as int),
        decreases chunk@.len() - i,
    {
        let ghost sofar = buf@;
        buf.push(chunk[i]);
        assert(buf@ =~= before + chunk@.take(i + 1));
        i = i + 1;
    }
    assert(chunk@.take(i as int) =~= chunk@);
    let ghost all = buf@;
    if buf.len() > STDERR_DRAIN_LIMIT {
        let from: usize = buf.len() - STDERR_DRAIN_LIMIT;
        let mut tail: Vec<u8> = Vec::new();
        let mut j: usize = from;
        while j < buf.len()
            invariant
                from <= j <= buf@.len(),
                tail@ == buf@.subrange(from as int, j as int),
            decreases buf@.len() - j,
        {
            tail.push(buf[j]);
            assert(tail@ =~= buf@.subrange(from as int, j + 1));
            j = j + 1;
        }
        assert(tail@ =~= all.skip(from as int));
        *buf = tail;
    }
}

// ---------------------------------------------------------------- the result

/// What came of a run.
#[derive(Debug, Clone)]
pub struct AgentResult {
    pub plan: Plan,
    pub plan_file: String,
    pub agent_log: String,
    /// The last text of the assistant.
    pub final_assistant_text: String,
    /// How long the run took, in milliseconds.
    pub elapsed_ms: u64,
    pub turns: u32,
    pub aborted: bool,
    /// Files that changed outside the plan.
    pub rogue_writes: Vec<String>,
    /// The end of the program's error output.
    pub pi_stderr: String,
    /// Files that appeared during the run.
    pub created_during_run: Vec<String>,
    pub metadata: Vec<(String, Field)>,
}

/// What was seen after a run.
#[derive(Debug, Clone)]
pub struct Aftermath {
    pub plan: Plan,
    pub rogue_writes: Vec<String>,
    pub created_during_run: Vec<String>,
    pub pi_stderr: String,
    pub elapsed_ms: u64,
    pub timeout_secs: u64,
}

/// The members under which a run is recorded.
pub open spec fn run_fields(
    provider: Seq<char>,
    model: Seq<char>,
    mode: Seq<char>,
    rogue: int,
) -> Seq<(Seq<char>, json::FieldView)> {
    seq![
        ("provider"@, json::FieldView::Text(provider)),
        ("model"@, json::FieldView::Text(model)),
        ("mode"@, json::FieldView::Text(mode)),
        ("rogue_writes"@, json::FieldView::Unsigned(rogue)),
    ]
}

/// Puts together what came of a run. A run whose time ran out with an empty plan
/// failed.
pub fn conclude(
    session: &Session,
    places: &RunPlaces,
    after: Aftermath,
    provider: &str,
    model: &str,
    mode: &str,
) -> (r: Result<AgentResult, AgentError>)
    ensures
        session.aborted && after.plan.entries@.len() == 0 ==> r == Err::<AgentResult, AgentError>(
            AgentError::Budget { timeout_secs: after.timeout_secs },
        ),
        !(session.aborted && after.plan.entries@.len() == 0) ==> {
            &&& r matches Ok(x)
            &&& x.plan == after.plan
            &&& x.plan_file@ == places.plan_file@
            &&& x.agent_log@ == places.agent_log@
            &&& x.final_assistant_text@ == text::trim(
                text::join(session@.segments, Seq::empty()),
            )
            &&& x.elapsed_ms == after.elapsed_ms
            &&& x.turns == session.turns
            &&& x.aborted == session.aborted
            &&& x.rogue_writes == after.rogue_writes
            &&& x.pi_stderr@ == text::trim(after.pi_stderr@)
            &&& x.created_during_run == after.created_during_run
            &&& json::fields_view(x.metadata@) == run_fields(
                provider@,
                model@,
                mode@,
                after.rogue_writes@.len() as int,
            )
        },
{
    if session.aborted && after.plan.entries.len() == 0 {
        return Err(AgentError::Budget { timeout_secs: after.timeout_secs });
    }
    let mut metadata: Vec<(String, Field)> = Vec::new();
    metadata.push((String::from_str("provider"), Field::Text(String::from_str(provider))));
    metadata.push((String::from_str("model"), Field::Text(String::from_str(model))));
    metadata.push((String::from_str("mode"), Field::Text(String::from_str(mode))));
    metadata.push(
        (String::from_str("rogue_writes"), Field::Unsigned(after.rogue_writes.len() as u64)),
    );
    assert(json::fields_view(metadata@) =~= run_fields(
        provider@,
        model@,
        mode@,
        after.rogue_writes@.len() as int,
    ));
    Ok(
        AgentResult {
            plan: after.plan,
            plan_file: places.plan_file.clone(),
            agent_log: places.agent_log.clone(),
            final_assistant_text: session.final_text(),
            elapsed_ms: after.elapsed_ms,
            turns: session.turns,
            aborted: session.aborted,
            rogue_writes: after.rogue_writes,
            pi_stderr: String::from_str(trimmed(after.pi_stderr.as_str())),
            created_during_run: after.created_during_run,
            metadata,
        },
    )
}

/// The process group to end where the agent's program does not end by itself.
pub fn group_to_kill(pid: i32) -> (r: Option<i32>)
    ensures
        r == if pid > 0 {
            Some((-pid) as i32)
        } else {
            None
        },
{
    if pid > 0 {
        Some(-pid)
    } else {
        None
    }
}

// ---------------------------------------------------------------- laws

/// What is known of a run after a sequence of events.
pub open spec fn after_events(s: SessionView, es: Seq<EventView>) -> SessionView
    decreases es.len(),
{
    if es.len() == 0 {
        s
    } else {
        after_event(after_events(s, es.drop_last()), es.last())
    }
}

/// The number of events of one kind.
pub open spec fn turn_ends(es: Seq<EventView>) -> nat
    decreases es.len(),
{
    if es.len() == 0 {
        0
    } else {
        turn_ends(es.drop_last()) + if es.last() is TurnEnd {
            1nat
        } else {
            0
        }
    }
}

/// Turns are counted one by one, and no event of the program marks a run as
/// aborted: only the clock does.
pub proof fn law_events_count_turns(s: SessionView, es: Seq<EventView>)
    ensures
        after_events(s, es).turns == s.turns + turn_ends(es),
        after_events(s, es).aborted == s.aborted,
    decreases es.len(),
{
    if es.len() > 0 {
        law_events_count_turns(s, es.drop_last());
    }
}

/// The texts that a sequence of events goes on with.
pub open spec fn deltas(es: Seq<EventView>) -> Seq<Seq<char>>
    decreases es.len(),
{
    if es.len() == 0 {
        Seq::empty()
    } else {
        match es.last() {
            EventView::TextDelta(t) => deltas(es.drop_last()).push(t),
            _ => deltas(es.drop_last()),
        }
    }
}

/// Only the last text counts: what came before a text started is forgotten.
pub proof fn law_last_text_only(s: SessionView, before: Seq<EventView>, after: Seq<EventView>)
    requires
        forall|i: int| 0 <= i < after.len() ==> !(#[trigger] after[i] is TextStart),
    ensures
        after_events(s, before.push(EventView::TextStart) + after).segments == deltas(after),
    decreases after.len(),
{
    let es = before.push(EventView::TextStart) + after;
    if after.len() == 0 {
        assert(es =~= before.push(EventView::TextStart));
        assert(es.drop_last() =~= before);
    } else {
        law_last_text_only(s, before, after.drop_last());
        assert(es.drop_last() =~= before.push(EventView::TextStart) + after.drop_last());
        assert(es.last() == after.last());
        assert(after[after.len() - 1] == after.last());
    }
}

} // verus!
