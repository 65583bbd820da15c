//! What a run of the agent is started with, told, and taken to say.

use vstd::prelude::*;
use vstd::string::*;

use crate::driver::{
    abort_fields, child_env, event_of, event_of_members, is_mode, kept_tail, lemma_names,
    lemma_names_differ, lemma_stripped, members_of_line, pi_args, prompt_fields, provider_and_model,
    provider_keys, run_fields, says, timeout_of, AgentInput, EventView, LineMembersView, RunPlaces,
    Vars,
};
use crate::json;
use crate::json::MemberView;
use crate::number;
use crate::number::decimal;
use crate::paths;
use crate::prompt::{agent_path_binaries, first_file, search_list, staged, user_prompt, Candidate};
use crate::text;
use crate::text::{contains, trim};
use crate::text_laws::{law_found_is_a_part, law_split_once, law_trim};

verus! {

// ---------------------------------------------------------------- arguments

/// The provider is what stands before the first slash of the model setting, the model
/// what stands behind it; a setting without a slash, or with nothing on one side of it,
/// is refused.
pub proof fn law_model_setting(provider: Seq<char>, model: Seq<char>)
    requires
        !provider.contains('/'),
    ensures
        provider.len() > 0 && model.len() > 0 ==> provider_and_model(
            provider + seq!['/'] + model,
        ) == Ok::<(Seq<char>, Seq<char>), Seq<char>>((provider, model)),
        provider.len() == 0 || model.len() == 0 ==> provider_and_model(
            provider + seq!['/'] + model,
        ) is Err,
        provider_and_model(provider) is Err,
{
    law_split_once(provider, '/', model);
}

/// Whether a word is no option.
pub open spec fn is_value(w: Seq<char>) -> bool {
    w.len() == 0 || w[0] != '-'
}

/// In the arguments of the agent's program the word after `--provider` is the provider,
/// the one after `--model` the model, the one after `--skill` the directory of the skills
/// and the one after `--api-key` the key; it speaks its protocol, has the shell as its
/// only tool and takes nothing over from elsewhere.
pub proof fn law_launch_words(
    skills_dir: Seq<char>,
    provider: Seq<char>,
    model: Seq<char>,
    api_key: Seq<char>,
)
    requires
        is_value(skills_dir),
        is_value(provider),
        is_value(model),
        is_value(api_key),
    ensures
        ({
            let a = pi_args(skills_dir, provider, model, api_key);
            &&& forall|i: int|
                #![trigger a[i]]
                0 <= i < a.len() ==> (a[i] == "--provider"@ ==> i + 1 < a.len() && a[i + 1] == provider)
                    && (a[i] == "--model"@ ==> i + 1 < a.len() && a[i + 1] == model) && (a[i]
                    == "--skill"@ ==> i + 1 < a.len() && a[i + 1] == skills_dir) && (a[i]
                    == "--api-key"@ ==> i + 1 < a.len() && a[i + 1] == api_key) && (a[i] == "--mode"@
                    ==> i + 1 < a.len() && a[i + 1] == "rpc"@) && (a[i] == "--tools"@ ==> i + 1
                    < a.len() && a[i + 1] == "bash"@)
            &&& a.contains("--provider"@) && a.contains("--model"@) && a.contains("--skill"@)
            &&& a.contains("--api-key"@) && a.contains("--mode"@) && a.contains("--tools"@)
            &&& a.contains("--no-session"@) && a.contains("--no-context-files"@)
            &&& a.contains("--no-extensions"@) && a.contains("--no-prompt-templates"@)
        }),
{
    let a = pi_args(skills_dir, provider, model, api_key);
    reveal_strlit("--mode");
    reveal_strlit("rpc");
    reveal_strlit("--no-session");
    reveal_strlit("--no-context-files");
    reveal_strlit("--no-extensions");
    reveal_strlit("--no-prompt-templates");
    reveal_strlit("--tools");
    reveal_strlit("bash");
    reveal_strlit("--skill");
    reveal_strlit("--provider");
    reveal_strlit("--model");
    reveal_strlit("--api-key");
    assert("--tools"@[2] == 't' && "--skill"@[2] == 's' && "--model"@[2] == 'm');
    assert("rpc"@[0] == 'r' && "bash"@[0] == 'b');
    assert("--mode"@.len() == 6 && "--no-session"@.len() == 12 && "--no-context-files"@.len() == 18);
    assert("--no-extensions"@.len() == 15 && "--no-prompt-templates"@.len() == 21);
    assert("--tools"@.len() == 7 && "--skill"@.len() == 7 && "--model"@.len() == 7);
    assert("--provider"@.len() == 10 && "--api-key"@.len() == 9);
    assert("--provider"@[0] == '-' && "--model"@[0] == '-' && "--skill"@[0] == '-');
    assert("--api-key"@[0] == '-' && "--mode"@[0] == '-' && "--tools"@[0] == '-');
    assert(a[0] == "--mode"@ && a[2] == "--no-session"@ && a[3] == "--no-context-files"@);
    assert(a[4] == "--no-extensions"@ && a[5] == "--no-prompt-templates"@ && a[6] == "--tools"@);
    assert(a[8] == "--skill"@ && a[10] == "--provider"@ && a[12] == "--model"@ && a[14]
        == "--api-key"@);
    assert(a[1] == "rpc"@ && a[7] == "bash"@ && a[9] == skills_dir && a[11] == provider);
    assert(a[13] == model && a[15] == api_key && a.len() == 16);
    assert forall|i: int|
        #![trigger a[i]]
        0 <= i < a.len() implies (a[i] == "--provider"@ ==> i == 10) && (a[i] == "--model"@ ==> i
        == 12) && (a[i] == "--skill"@ ==> i == 8) && (a[i] == "--api-key"@ ==> i == 14) && (a[i]
        == "--mode"@ ==> i == 0) && (a[i] == "--tools"@ ==> i == 6) by {
        if i < 8 {
            assert(i == 0 || i == 1 || i == 2 || i == 3 || i == 4 || i == 5 || i == 6 || i == 7);
        } else {
            assert(i == 8 || i == 9 || i == 10 || i == 11 || i == 12 || i == 13 || i == 14 || i
                == 15);
        }
    }
}

// ---------------------------------------------------------------- environment

/// The names that a run sets in the environment of the agent's program.
pub open spec fn is_set_by_run(k: Seq<char>) -> bool {
    k == "KB_PLAN_FILE"@ || k == "KB_AGENT_MODE"@ || k == "KB_EXTRACTED"@ || k == "KB_VAULT_ROOT"@
        || k == "KB_SOURCES_DIR"@ || k == "KB_AGENT_ROOT"@ || k == "KB_OBSIDIAN_BIN"@ || k
        == "PATH"@
}

/// The names that a run takes away.
pub open spec fn is_taken_by_run(k: Seq<char>) -> bool {
    k == "OPENAI_API_KEY"@ || k == "ANTHROPIC_API_KEY"@ || k == "GOOGLE_API_KEY"@ || k
        == "GEMINI_API_KEY"@ || k == "MISTRAL_API_KEY"@ || k == "COHERE_API_KEY"@ || k
        == "AWS_ACCESS_KEY_ID"@ || k == "AWS_SECRET_ACCESS_KEY"@
}

/// Of the environment of the daemon the agent's program sees all but the keys of other
/// providers and what the run sets itself, unchanged.
pub proof fn law_environment_is_kept(
    env: Vars,
    inp: AgentInput,
    places: RunPlaces,
    obsidian: Option<Seq<char>>,
    k: Seq<char>,
)
    ensures
        is_taken_by_run(k) ==> !child_env(env, inp, places, obsidian).contains_key(k),
        !is_taken_by_run(k) && !is_set_by_run(k) ==> (child_env(
            env,
            inp,
            places,
            obsidian,
        ).contains_key(k) <==> env.contains_key(k)),
        !is_taken_by_run(k) && !is_set_by_run(k) && env.contains_key(k) ==> child_env(
            env,
            inp,
            places,
            obsidian,
        )[k] == env[k],
{
    lemma_names();
    lemma_stripped(env, provider_keys().len(), k);
    let ks = provider_keys();
    assert(ks[0] == "OPENAI_API_KEY"@ && ks[1] == "ANTHROPIC_API_KEY"@);
    assert(ks[2] == "GOOGLE_API_KEY"@ && ks[3] == "GEMINI_API_KEY"@);
    assert(ks[4] == "MISTRAL_API_KEY"@ && ks[5] == "COHERE_API_KEY"@);
    assert(ks[6] == "AWS_ACCESS_KEY_ID"@ && ks[7] == "AWS_SECRET_ACCESS_KEY"@);
}

/// What a run sets is what it was given: where the plan goes, the mode, the extracted
/// text, the directories, and the wrapper directory as the only place to look for
/// programs. Obsidian is named where it was found and the daemon names no other.
pub proof fn law_environment_is_set(
    env: Vars,
    inp: AgentInput,
    places: RunPlaces,
    obsidian: Option<Seq<char>>,
)
    ensures
        ({
            let c = child_env(env, inp, places, obsidian);
            &&& c.contains_key("KB_PLAN_FILE"@) && c["KB_PLAN_FILE"@] == places.plan_file@
            &&& c.contains_key("KB_AGENT_MODE"@) && c["KB_AGENT_MODE"@] == inp.mode@
            &&& c.contains_key("KB_EXTRACTED"@) && c["KB_EXTRACTED"@] == inp.extracted_path@
            &&& c.contains_key("KB_VAULT_ROOT"@) && c["KB_VAULT_ROOT"@] == inp.vault_root@
            &&& c.contains_key("KB_SOURCES_DIR"@) && c["KB_SOURCES_DIR"@] == inp.sources_dir@
            &&& c.contains_key("KB_AGENT_ROOT"@) && c["KB_AGENT_ROOT"@] == inp.agent_root@
            &&& c.contains_key("PATH"@) && c["PATH"@] == places.wrapper_dir@
            &&& env.contains_key("KB_OBSIDIAN_BIN"@) && trim(env["KB_OBSIDIAN_BIN"@]).len() > 0
                ==> c.contains_key("KB_OBSIDIAN_BIN"@) && c["KB_OBSIDIAN_BIN"@]
                == env["KB_OBSIDIAN_BIN"@]
            &&& !(env.contains_key("KB_OBSIDIAN_BIN"@) && trim(env["KB_OBSIDIAN_BIN"@]).len() > 0)
                && obsidian is Some ==> c.contains_key("KB_OBSIDIAN_BIN"@) && c["KB_OBSIDIAN_BIN"@]
                == obsidian->0
        }),
{
    lemma_names();
    lemma_names_differ();
    lemma_stripped(env, provider_keys().len(), "KB_OBSIDIAN_BIN"@);
    reveal_strlit("PATH");
    assert("PATH"@.len() == 4);
}

/// A variable says something where it is set and not blank.
pub proof fn law_says(env: Vars, key: Seq<char>)
    ensures
        says(env, key) <==> env.contains_key(key) && trim(env[key]).len() > 0,
{
}

/// A run may take what the environment says, but at least a minute; ten minutes where it
/// says no number.
pub proof fn law_timeout(n: int, s: Seq<char>)
    ensures
        timeout_of(None) == 600,
        60 <= n <= u64::MAX ==> timeout_of(Some(decimal(n))) == n,
        0 <= n < 60 ==> timeout_of(Some(decimal(n))) == 60,
        number::natural_of(trim(s)) is None ==> timeout_of(Some(s)) == 600,
{
    if 0 <= n <= u64::MAX {
        let d = decimal(n);
        number::law_decimal_round_trip(n);
        number::lemma_numeral_digits(n as nat);
        let e = Seq::<char>::empty();
        assert(e + d + e =~= d);
        assert(number::is_digit(d[0]) && number::is_digit(d.last()));
        law_trim(e, d, e);
        assert(number::natural_of(d) == number::integer_of(d));
    }
}

/// There are two modes.
pub proof fn law_modes(m: Seq<char>)
    ensures
        is_mode(m) <==> m == "shadow"@ || m == "apply"@,
{
}

// ---------------------------------------------------------------- the prompt

proof fn lemma_still(s: Seq<char>, t: Seq<char>, p: Seq<char>)
    requires
        contains(s, p),
    ensures
        contains(s + t, p),
{
    let i = choose|i: int| text::occurs_at(s, p, i);
    assert((s + t).subrange(i, i + p.len()) =~= s.subrange(i, i + p.len()));
    assert(text::occurs_at(s + t, p, i));
}

proof fn lemma_put(front: Seq<char>, label: Seq<char>, value: Seq<char>)
    ensures
        contains(front + label + value, label + value),
{
    let s = front + label + value;
    let n = front.len() as int;
    let p = label + value;
    assert(s.subrange(n, n + p.len()) =~= p);
    assert(text::occurs_at(s, p, n));
}

proof fn lemma_labels()
    ensures
        text::starts_with("/skill:knowledge-builder-integrator\n\nPer-job context:\n  extracted_path  = "@, "/skill:knowledge-builder-integrator\n"@),
        text::ends_with("/skill:knowledge-builder-integrator\n\nPer-job context:\n  extracted_path  = "@, "extracted_path  = "@),
        text::ends_with("\n  source_basename = "@, "source_basename = "@),
        text::ends_with("\n  vault_root      = "@, "vault_root      = "@),
        text::ends_with("\n  sources_dir     = "@, "sources_dir     = "@),
        text::ends_with("\n  agent_root      = "@, "agent_root      = "@),
        text::ends_with("\n  mode            = "@, "mode            = "@),
        text::ends_with("\n  job_id          = "@, "job_id          = "@),
{
    reveal_strlit("/skill:knowledge-builder-integrator\n");
    reveal_strlit("/skill:knowledge-builder-integrator\n\nPer-job context:\n  extracted_path  = ");
    reveal_strlit("extracted_path  = ");
    reveal_strlit("\n  source_basename = ");
    reveal_strlit("source_basename = ");
    reveal_strlit("\n  vault_root      = ");
    reveal_strlit("vault_root      = ");
    reveal_strlit("\n  sources_dir     = ");
    reveal_strlit("sources_dir     = ");
    reveal_strlit("\n  agent_root      = ");
    reveal_strlit("agent_root      = ");
    reveal_strlit("\n  mode            = ");
    reveal_strlit("mode            = ");
    reveal_strlit("\n  job_id          = ");
    reveal_strlit("job_id          = ");
    let all = "/skill:knowledge-builder-integrator\n\nPer-job context:\n  extracted_path  = "@;
    let first = "/skill:knowledge-builder-integrator\n"@;
    assert(all.subrange(0, first.len() as int) =~= first);
    assert("/skill:knowledge-builder-integrator\n\nPer-job context:\n  extracted_path  = "@.subrange(
        "/skill:knowledge-builder-integrator\n\nPer-job context:\n  extracted_path  = "@.len() - "extracted_path  = "@.len(),
        "/skill:knowledge-builder-integrator\n\nPer-job context:\n  extracted_path  = "@.len() as int,
    ) =~= "extracted_path  = "@);
    assert("\n  source_basename = "@.subrange(
        "\n  source_basename = "@.len() - "source_basename = "@.len(),
        "\n  source_basename = "@.len() as int,
    ) =~= "source_basename = "@);
    assert("\n  vault_root      = "@.subrange(
        "\n  vault_root      = "@.len() - "vault_root      = "@.len(),
        "\n  vault_root      = "@.len() as int,
    ) =~= "vault_root      = "@);
    assert("\n  sources_dir     = "@.subrange(
        "\n  sources_dir     = "@.len() - "sources_dir     = "@.len(),
        "\n  sources_dir     = "@.len() as int,
    ) =~= "sources_dir     = "@);
    assert("\n  agent_root      = "@.subrange(
        "\n  agent_root      = "@.len() - "agent_root      = "@.len(),
        "\n  agent_root      = "@.len() as int,
    ) =~= "agent_root      = "@);
    assert("\n  mode            = "@.subrange(
        "\n  mode            = "@.len() - "mode            = "@.len(),
        "\n  mode            = "@.len() as int,
    ) =~= "mode            = "@);
    assert("\n  job_id          = "@.subrange(
        "\n  job_id          = "@.len() - "job_id          = "@.len(),
        "\n  job_id          = "@.len() as int,
    ) =~= "job_id          = "@);
}

/// The prompt calls the skill first, and tells each thing of the job under its name.
pub proof fn law_prompt(inp: AgentInput)
    ensures
        ({
            let p = user_prompt(inp);
            &&& text::starts_with(p, "/skill:knowledge-builder-integrator\n"@)
            &&& contains(p, "extracted_path  = "@ + inp.extracted_path@)
            &&& contains(p, "source_basename = "@ + inp.source_basename@)
            &&& contains(p, "vault_root      = "@ + inp.vault_root@)
            &&& contains(p, "sources_dir     = "@ + inp.sources_dir@)
            &&& contains(p, "agent_root      = "@ + inp.agent_root@)
            &&& contains(p, "mode            = "@ + inp.mode@)
            &&& contains(p, "job_id          = "@ + decimal(inp.job_id as int))
        }),
{
    let l0 = "/skill:knowledge-builder-integrator\n\nPer-job context:\n  extracted_path  = "@;
    let l1 = "\n  source_basename = "@;
    let l2 = "\n  vault_root      = "@;
    let l3 = "\n  sources_dir     = "@;
    let l4 = "\n  agent_root      = "@;
    let l5 = "\n  mode            = "@;
    let l6 = "\n  job_id          = "@;
    let l7 = "\n\nRequired workflow:\n  1. Read the extracted content with `cat`.\n  2. Survey existing structure: `kb-obsidian folders folder=KnowledgeBase`,\n     `kb-obsidian tags counts`.\n  3. For overlap detection: at least one `kb-obsidian search query=...`.\n  4. **Issue at least one `kb-obsidian create path=KnowledgeBase/...`\n     (or append/move/etc.) command** to actually integrate the content.\n     A textual summary alone is NOT a successful integration.\n  5. Optionally set frontmatter properties with `kb-obsidian property:set\n     name=... value=... file=...`.\n  6. Emit a brief final summary message and stop.\n\nAll vault operations MUST go through the `kb-obsidian` wrapper.  Do not\nuse `cat >`, `tee`, redirects, or any other shell tricks to write into\nthe vault — those are detected and reported as rogue writes.\n"@;
    let v0 = inp.extracted_path@;
    let v1 = inp.source_basename@;
    let v2 = inp.vault_root@;
    let v3 = inp.sources_dir@;
    let v4 = inp.agent_root@;
    let v5 = inp.mode@;
    let v6 = decimal(inp.job_id as int);
    let s0 = l0 + v0;
    let s1 = s0 + l1 + v1;
    let s2 = s1 + l2 + v2;
    let s3 = s2 + l3 + v3;
    let s4 = s3 + l4 + v4;
    let s5 = s4 + l5 + v5;
    let s6 = s5 + l6 + v6;
    let s7 = s6 + l7;
    assert(s7 == user_prompt(inp));
    let n0 = "extracted_path  = "@;
    let p0 = l0.take(l0.len() - n0.len());
    let n1 = "source_basename = "@;
    let p1 = l1.take(l1.len() - n1.len());
    let n2 = "vault_root      = "@;
    let p2 = l2.take(l2.len() - n2.len());
    let n3 = "sources_dir     = "@;
    let p3 = l3.take(l3.len() - n3.len());
    let n4 = "agent_root      = "@;
    let p4 = l4.take(l4.len() - n4.len());
    let n5 = "mode            = "@;
    let p5 = l5.take(l5.len() - n5.len());
    let n6 = "job_id          = "@;
    let p6 = l6.take(l6.len() - n6.len());
    lemma_labels();
    law_found_is_a_part(l0, n0);
    law_found_is_a_part(l1, n1);
    law_found_is_a_part(l2, n2);
    law_found_is_a_part(l3, n3);
    law_found_is_a_part(l4, n4);
    law_found_is_a_part(l5, n5);
    law_found_is_a_part(l6, n6);
    assert(l0 == p0 + n0);
    lemma_put(p0, n0, v0);
    lemma_still(s0, l1, n0 + v0);
    lemma_still(s0 + l1, v1, n0 + v0);
    lemma_still(s1, l2, n0 + v0);
    lemma_still(s1 + l2, v2, n0 + v0);
    lemma_still(s2, l3, n0 + v0);
    lemma_still(s2 + l3, v3, n0 + v0);
    lemma_still(s3, l4, n0 + v0);
    lemma_still(s3 + l4, v4, n0 + v0);
    lemma_still(s4, l5, n0 + v0);
    lemma_still(s4 + l5, v5, n0 + v0);
    lemma_still(s5, l6, n0 + v0);
    lemma_still(s5 + l6, v6, n0 + v0);
    lemma_still(s6, l7, n0 + v0);
    assert(l1 == p1 + n1);
    lemma_put(s0 + p1, n1, v1);
    assert(s0 + p1 + n1 + v1 =~= s1);
    lemma_still(s1, l2, n1 + v1);
    lemma_still(s1 + l2, v2, n1 + v1);
    lemma_still(s2, l3, n1 + v1);
    lemma_still(s2 + l3, v3, n1 + v1);
    lemma_still(s3, l4, n1 + v1);
    lemma_still(s3 + l4, v4, n1 + v1);
    lemma_still(s4, l5, n1 + v1);
    lemma_still(s4 + l5, v5, n1 + v1);
    lemma_still(s5, l6, n1 + v1);
    lemma_still(s5 + l6, v6, n1 + v1);
    lemma_still(s6, l7, n1 + v1);
    assert(l2 == p2 + n2);
    lemma_put(s1 + p2, n2, v2);
    assert(s1 + p2 + n2 + v2 =~= s2);
    lemma_still(s2, l3, n2 + v2);
    lemma_still(s2 + l3, v3, n2 + v2);
    lemma_still(s3, l4, n2 + v2);
    lemma_still(s3 + l4, v4, n2 + v2);
    lemma_still(s4, l5, n2 + v2);
    lemma_still(s4 + l5, v5, n2 + v2);
    lemma_still(s5, l6, n2 + v2);
    lemma_still(s5 + l6, v6, n2 + v2);
    lemma_still(s6, l7, n2 + v2);
    assert(l3 == p3 + n3);
    lemma_put(s2 + p3, n3, v3);
    assert(s2 + p3 + n3 + v3 =~= s3);
    lemma_still(s3, l4, n3 + v3);
    lemma_still(s3 + l4, v4, n3 + v3);
    lemma_still(s4, l5, n3 + v3);
    lemma_still(s4 + l5, v5, n3 + v3);
    lemma_still(s5, l6, n3 + v3);
    lemma_still(s5 + l6, v6, n3 + v3);
    lemma_still(s6, l7, n3 + v3);
    assert(l4 == p4 + n4);
    lemma_put(s3 + p4, n4, v4);
    assert(s3 + p4 + n4 + v4 =~= s4);
    lemma_still(s4, l5, n4 + v4);
    lemma_still(s4 + l5, v5, n4 + v4);
    lemma_still(s5, l6, n4 + v4);
    lemma_still(s5 + l6, v6, n4 + v4);
    lemma_still(s6, l7, n4 + v4);
    assert(l5 == p5 + n5);
    lemma_put(s4 + p5, n5, v5);
    assert(s4 + p5 + n5 + v5 =~= s5);
    lemma_still(s5, l6, n5 + v5);
    lemma_still(s5 + l6, v6, n5 + v5);
    lemma_still(s6, l7, n5 + v5);
    assert(l6 == p6 + n6);
    lemma_put(s5 + p6, n6, v6);
    assert(s5 + p6 + n6 + v6 =~= s6);
    lemma_still(s6, l7, n6 + v6);
    let first = "/skill:knowledge-builder-integrator\n"@;
    assert(s7.subrange(0, first.len() as int) =~= l0.subrange(0, first.len() as int));
}

/// The prompt is sent as a message of the kind `prompt`, and the program is told to stop
/// by one of the kind `abort`.
pub proof fn law_messages(p: Seq<char>)
    ensures
        prompt_fields(p).contains(("type"@, json::FieldView::Text("prompt"@))),
        prompt_fields(p).contains(("message"@, json::FieldView::Text(p))),
        abort_fields() == seq![("type"@, json::FieldView::Text("abort"@))],
{
    assert(prompt_fields(p)[1] == ("type"@, json::FieldView::Text("prompt"@)));
    assert(prompt_fields(p)[2] == ("message"@, json::FieldView::Text(p)));
}

// ---------------------------------------------------------------- events

proof fn lemma_event_words()
    ensures
        "turn_end"@ != "message_update"@,
        "turn_end"@ != "agent_end"@,
        "turn_end"@ != "response"@,
        "message_update"@ != "agent_end"@,
        "message_update"@ != "response"@,
        "agent_end"@ != "response"@,
        "text_start"@ != "text_delta"@,
{
    reveal_strlit("turn_end");
    reveal_strlit("message_update");
    reveal_strlit("agent_end");
    reveal_strlit("response");
    reveal_strlit("text_start");
    reveal_strlit("text_delta");
    assert("turn_end"@[0] == 't' && "response"@[0] == 'r');
    assert("turn_end"@.len() == 8 && "response"@.len() == 8);
    assert("message_update"@.len() == 14 && "agent_end"@.len() == 9);
    assert("text_start"@[5] == 's' && "text_delta"@[5] == 'd');
}

/// What a line says goes by its `type`: the end of a turn, the end of the work, a piece
/// of the assistant's text, or a command that failed; anything else says nothing.
pub proof fn law_line_types(m: LineMembersView, t: Seq<char>, said: Seq<char>)
    requires
        m.kind == Some(MemberView::Text(t)),
    ensures
        t == "turn_end"@ ==> event_of_members(m) is TurnEnd,
        t == "agent_end"@ ==> event_of_members(m) is AgentEnd,
        t == "message_update"@ && m.piece is Some && (m.piece->0).kind == Some(
            MemberView::Text("text_start"@),
        ) ==> event_of_members(m) is TextStart,
        t == "message_update"@ && m.piece is Some && (m.piece->0).kind == Some(
            MemberView::Text("text_delta"@),
        ) && (m.piece->0).delta == Some(MemberView::Text(said)) ==> event_of_members(m)
            == EventView::TextDelta(said),
        t == "response"@ && m.success == Some(MemberView::Bool(false)) && m.error == Some(
            MemberView::Text(said),
        ) ==> event_of_members(m) == (EventView::Refused { command: m.command, error: said }),
        t == "response"@ && m.success == Some(MemberView::Bool(true)) ==> event_of_members(
            m,
        ) is Other,
        t != "turn_end"@ && t != "agent_end"@ && t != "message_update"@ && t != "response"@
            ==> event_of_members(m) is Other,
{
    lemma_event_words();
}

/// The members of a line are those of its JSON under their names.
pub proof fn law_line_members(line: Seq<char>, p: Seq<char>)
    ensures
        event_of(line) == event_of_members(members_of_line(line)),
        members_of_line(line).kind == json::json_member(line, "type"@),
        members_of_line(line).success == json::json_member(line, "success"@),
        members_of_line(line).error == json::json_member(line, "error"@),
        members_of_line(line).command == json::json_debug(line, "command"@),
        json::json_member(line, "assistantMessageEvent"@) == Some(MemberView::Nested(p))
            ==> members_of_line(line).piece is Some && (members_of_line(line).piece->0).kind
            == json::json_member(p, "type"@) && (members_of_line(line).piece->0).delta
            == json::json_member(p, "delta"@),
{
}

/// Of the error output the end is kept: all of it up to 65536 bytes, and no more.
pub proof fn law_error_tail(s: Seq<u8>)
    ensures
        s.len() <= 65536 ==> kept_tail(s) == s,
        s.len() > 65536 ==> kept_tail(s).len() == 65536 && kept_tail(s) == s.skip(s.len() - 65536),
{
}

/// A run is recorded with its provider, its model, its mode and how many files changed
/// behind the plan's back.
pub proof fn law_run_record(provider: Seq<char>, model: Seq<char>, mode: Seq<char>, rogue: int)
    ensures
        ({
            let f = run_fields(provider, model, mode, rogue);
            &&& f.contains(("provider"@, json::FieldView::Text(provider)))
            &&& f.contains(("model"@, json::FieldView::Text(model)))
            &&& f.contains(("mode"@, json::FieldView::Text(mode)))
            &&& f.contains(("rogue_writes"@, json::FieldView::Unsigned(rogue)))
        }),
{
    let f = run_fields(provider, model, mode, rogue);
    assert(f[0] == ("provider"@, json::FieldView::Text(provider)));
    assert(f[1] == ("model"@, json::FieldView::Text(model)));
    assert(f[2] == ("mode"@, json::FieldView::Text(mode)));
    assert(f[3] == ("rogue_writes"@, json::FieldView::Unsigned(rogue)));
}

// ---------------------------------------------------------------- programs

/// A program is the first of the places at which a file is, and there is none only where
/// no place holds a file.
pub proof fn law_first_file(cs: Seq<Candidate>, from: int)
    requires
        0 <= from,
    ensures
        match first_file(cs, from) {
            Some(p) => exists|i: int|
                from <= i < cs.len() && (#[trigger] cs[i]).is_file && cs[i].path@ == p && forall|j: int|
                    from <= j < i ==> !(#[trigger] cs[j]).is_file,
            None => forall|j: int| from <= j < cs.len() ==> !(#[trigger] cs[j]).is_file,
        },
    decreases cs.len() - from,
{
    if from < cs.len() && !cs[from].is_file {
        law_first_file(cs, from + 1);
        if first_file(cs, from + 1) is Some {
            let p = first_file(cs, from + 1)->0;
            let i = choose|i: int|
                from + 1 <= i < cs.len() && (#[trigger] cs[i]).is_file && cs[i].path@ == p
                    && forall|j: int| from + 1 <= j < i ==> !(#[trigger] cs[j]).is_file;
            assert(cs[i].is_file && cs[i].path@ == p);
            assert forall|j: int| from <= j < i implies !(#[trigger] cs[j]).is_file by {}
        }
    }
}

/// A program is looked for in every directory, in their order; one with an absolute name
/// at that name first.
pub proof fn law_search(name: Seq<char>, dirs: Seq<Seq<char>>, i: int)
    requires
        0 <= i < dirs.len(),
    ensures
        !(name.len() > 0 && name[0] == '/') ==> search_list(name, dirs).len() == dirs.len()
            && search_list(name, dirs)[i] == paths::join(dirs[i], name),
        name.len() > 0 && name[0] == '/' ==> search_list(name, dirs).len() == dirs.len() + 1
            && search_list(name, dirs)[0] == name && search_list(name, dirs)[i + 1] == paths::join(
            dirs[i],
            name,
        ),
{
}

/// The agent finds the policy wrapper, and of the programs that it may call each that was
/// found, under its own name, and nothing else.
pub proof fn law_staged(wrapper: Seq<char>, found: Seq<Option<Seq<char>>>, n: nat)
    requires
        n <= found.len(),
        n <= agent_path_binaries().len(),
    ensures
        staged(wrapper, found, n).contains(("kb-obsidian"@, wrapper)),
        forall|i: int|
            0 <= i < n && (#[trigger] found[i]) is Some ==> staged(wrapper, found, n).contains(
                (agent_path_binaries()[i], found[i]->0),
            ),
        forall|j: int|
            0 <= j < staged(wrapper, found, n).len() ==> (#[trigger] staged(wrapper, found, n)[j]) == (
            "kb-obsidian"@,
            wrapper,
        ) || exists|i: int|
                0 <= i < n && (#[trigger] found[i]) is Some && staged(wrapper, found, n)[j] == (
                agent_path_binaries()[i],
                found[i]->0,
            ),
    decreases n,
{
    let all = staged(wrapper, found, n);
    if n == 0 {
        assert(all[0] == ("kb-obsidian"@, wrapper));
    } else {
        let m = (n - 1) as nat;
        law_staged(wrapper, found, m);
        let before = staged(wrapper, found, m);
        assert forall|x: (Seq<char>, Seq<char>)| before.contains(x) implies #[trigger] all.contains(
            x,
        ) by {
            let k = choose|k: int| 0 <= k < before.len() && before[k] == x;
            assert(all[k] == x);
        }
        assert(before.contains(("kb-obsidian"@, wrapper)));
        assert forall|i: int| 0 <= i < n && (#[trigger] found[i]) is Some implies all.contains(
            (agent_path_binaries()[i], found[i]->0),
        ) by {
            if i == n - 1 {
                assert(all[before.len() as int] == (agent_path_binaries()[i], found[i]->0));
            } else {
                assert(before.contains((agent_path_binaries()[i], found[i]->0)));
            }
        }
        assert forall|j: int| 0 <= j < all.len() implies (#[trigger] all[j]) == (
        "kb-obsidian"@, wrapper) || exists|i: int|
            0 <= i < n && (#[trigger] found[i]) is Some && all[j] == (
            agent_path_binaries()[i],
            found[i]->0,
        ) by {
            if j < before.len() {
                assert(all[j] == before[j]);
                if before[j] != ("kb-obsidian"@, wrapper) {
                    let i = choose|i: int|
                        0 <= i < m && (#[trigger] found[i]) is Some && before[j] == (
                        agent_path_binaries()[i],
                        found[i]->0,
                    );
                    assert(found[i] is Some);
                }
            } else {
                assert(found[n - 1] is Some);
            }
        }
    }
}

/// The programs that the agent may call are these.
pub proof fn law_agent_programs(name: Seq<char>)
    ensures
        agent_path_binaries().contains(name) <==> (name == "cat"@
            || name == "head"@
            || name == "tail"@
            || name == "sed"@
            || name == "grep"@
            || name == "awk"@
            || name == "wc"@
            || name == "printf"@
            || name == "echo"@
            || name == "sort"@
            || name == "uniq"@
            || name == "tr"@
            || name == "sh"@
            || name == "bash"@
            || name == "env"@
            || name == "true"@
            || name == "false"@
            || name == "basename"@
            || name == "dirname"@
            || name == "date"@
            || name == "jq"@
            || name == "node"@
            || name == "npm"@
            || name == "npx"@),
{
    assert(agent_path_binaries()[0] == "cat"@);
    assert(agent_path_binaries()[1] == "head"@);
    assert(agent_path_binaries()[2] == "tail"@);
    assert(agent_path_binaries()[3] == "sed"@);
    assert(agent_path_binaries()[4] == "grep"@);
    assert(agent_path_binaries()[5] == "awk"@);
    assert(agent_path_binaries()[6] == "wc"@);
    assert(agent_path_binaries()[7] == "printf"@);
    assert(agent_path_binaries()[8] == "echo"@);
    assert(agent_path_binaries()[9] == "sort"@);
    assert(agent_path_binaries()[10] == "uniq"@);
    assert(agent_path_binaries()[11] == "tr"@);
    assert(agent_path_binaries()[12] == "sh"@);
    assert(agent_path_binaries()[13] == "bash"@);
    assert(agent_path_binaries()[14] == "env"@);
    assert(agent_path_binaries()[15] == "true"@);
    assert(agent_path_binaries()[16] == "false"@);
    assert(agent_path_binaries()[17] == "basename"@);
    assert(agent_path_binaries()[18] == "dirname"@);
    assert(agent_path_binaries()[19] == "date"@);
    assert(agent_path_binaries()[20] == "jq"@);
    assert(agent_path_binaries()[21] == "node"@);
    assert(agent_path_binaries()[22] == "npm"@);
    assert(agent_path_binaries()[23] == "npx"@);
}

} // verus!
