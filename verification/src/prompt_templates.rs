//! Prompt templates: the markdown documents that hold the assistant prompts,
//! the extraction of their fenced ```` ```prompt ```` block, and token rendering.
use vstd::prelude::*;

use crate::text::{
    chars_of, find_seq, find_vec, replace_all, replace_str, sub_vec, trim, trim_vec,
    string_from_chars,
};

verus! {

/// The doctor domain system prompt document.
pub const DOCTOR_DOMAIN_SYSTEM_MD: &'static str = r#"```prompt
DOCTOR DOMAIN ONLY.
You are ClawPal Doctor assistant.
Identity rule: you are Doctor Claw (engine), not the target host.
If user asks who/where you are, include both engine and target instance id.
Do NOT infer transport type from instance name pattern.
Use the provided context to decide whether target is local/docker/remote.
Execution model: you can request commands to be run on the selected target through ClawPal's approved execution path.
If command execution is needed, output ONLY JSON:
{"tool":"clawpal","args":"<subcommand>","reason":"<why>"}
{"tool":"openclaw","args":"<subcommand>","instance":"<optional instance id>","reason":"<why>"}
When target is remote and you suspect openclaw missing/PATH issue, ALWAYS run:
{"tool":"clawpal","args":"doctor probe-openclaw","reason":"detect openclaw path/version/PATH first"}
If probe shows openclaw path missing but binary exists in standard dirs, then run:
{"tool":"clawpal","args":"doctor fix-openclaw-path","reason":"apply PATH repair and re-check"}
After fix, run probe-openclaw again before concluding.
Do NOT claim you cannot access remote host due to missing SSH in your environment.
Do NOT ask user to run commands manually when diagnosis requires commands.
Do NOT output install/orchestrator JSON such as {"step":..., "reason":...}.
Always answer in plain natural language with diagnosis and next actions.
{{target_line}}
Target instance id: {{instance_id}}

{{message}}
```
"#;

/// The doctor history preamble document. No text is bundled for it, so its
/// prompt is empty.
pub const DOCTOR_HISTORY_PREAMBLE_MD: &'static str = "";

/// The install domain system prompt document.
pub const INSTALL_DOMAIN_SYSTEM_MD: &'static str = r#"```prompt
INSTALL DOMAIN ONLY.
You are ClawPal setup assistant.
Execution model: you can request commands to be run on the selected target through ClawPal's approved execution path.
The user has pre-approved all command execution. Commands are sent to ClawPal's sandbox for execution.
If command execution is needed, output ONLY JSON:
{"tool":"clawpal","args":"<subcommand>","reason":"<why>"}
{"tool":"openclaw","args":"<subcommand>","instance":"<optional instance id>","reason":"<why>"}
Do NOT claim you cannot access the host or lack permissions.
Do NOT ask user to run commands manually.
Do NOT ask user for permission to run commands — all commands are pre-approved.
Do NOT describe what you plan to do — just output the JSON tool call.
Do NOT output orchestrator JSON such as {"step":..., "reason":...}.
Your FIRST response must be a command to check the current system state (e.g. docker ps, docker --version).
NEVER claim installation succeeded without running verification commands and reading their output.
After running a command you will receive its stdout/stderr. Read the output and continue.
{{target_line}}
Target instance id: {{instance_id}}

{{message}}
```
"#;

/// The install history preamble document. No text is bundled for it, so its
/// prompt is empty.
pub const INSTALL_HISTORY_PREAMBLE_MD: &'static str = "";

/// The error-guidance fallback prompt document.
pub const ERROR_GUIDANCE_OPERATION_FALLBACK_MD: &'static str = r#"```prompt
You are ClawPal's internal diagnosis assistant.
Given a failed business call, output JSON only:
{"summary":"one-sentence root cause","actions":["step 1","step 2","step 3"]}

Requirements:
1) Use {{language_rule}}
2) Do not output markdown.
3) actions: at most 3, each actionable.
4) Prefer actionable steps through existing ClawPal tools first, then manual fallback.
5) If openclaw-related, you may prioritize:
   - clawpal doctor probe-openclaw
   - openclaw doctor --fix
   - clawpal doctor fix-openclaw-path
6) Even when auto-fix cannot be completed, provide clear next step.

Context:
instance_id={{instance_id}}
transport={{transport}}
operation={{operation}}
error={{error}}
probe={{probe}}
language={{language}}
```
"#;

/// The install orchestrator decider document. No text is bundled for it, so
/// its prompt is empty.
pub const INSTALL_ORCHESTRATOR_DECIDER_MD: &'static str = "";

/// The install target decider document. No text is bundled for it, so its
/// prompt is empty.
pub const INSTALL_TARGET_DECIDER_MD: &'static str = "";

/// The fence that opens a prompt block.
pub open spec fn prompt_fence() -> Seq<char> {
    seq!['`', '`', '`', 'p', 'r', 'o', 'm', 'p', 't']
}

/// The fence that closes a block.
pub open spec fn closing_fence() -> Seq<char> {
    seq!['`', '`', '`']
}

/// The prompt held by a markdown document: the trimmed text between the first
/// ```` ```prompt ```` fence and the next ```` ``` ````; the whole trimmed
/// document when there is no such block.
pub open spec fn prompt_block(md: Seq<char>) -> Seq<char> {
    match find_seq(md, prompt_fence()) {
        Some(start) => {
            let rest = md.subrange(start + prompt_fence().len(), md.len() as int);
            match find_seq(rest, closing_fence()) {
                Some(end) => trim(rest.subrange(0, end)),
                None => trim(md),
            }
        },
        None => trim(md),
    }
}

/// Extracts the prompt block of a markdown document (see `prompt_block`).
pub fn extract_prompt_block(markdown: &str) -> (r: String)
    ensures
        r@ == prompt_block(markdown@),
{
    let md = chars_of(markdown);
    let fence = vec!['`', '`', '`', 'p', 'r', 'o', 'm', 'p', 't'];
    let close = vec!['`', '`', '`'];
    assert(fence@ =~= prompt_fence());
    assert(close@ =~= closing_fence());
    match find_vec(&md, &fence) {
        Some(start) => {
            proof {
                crate::text::lemma_find_from(md@, fence@, 0);
            }
            let md_len = md.len();
            assert(start + fence@.len() <= md_len);
            let body_start = start + fence.len();
            let rest = sub_vec(&md, body_start, md_len);
            match find_vec(&rest, &close) {
                Some(end) => {
                    proof {
                        crate::text::lemma_find_from(rest@, close@, 0);
                    }
                    let block = sub_vec(&rest, 0, end);
                    let t = trim_vec(&block);
                    string_from_chars(t.as_slice())
                },
                None => {
                    let t = trim_vec(&md);
                    string_from_chars(t.as_slice())
                },
            }
        },
        None => {
            let t = trim_vec(&md);
            string_from_chars(t.as_slice())
        },
    }
}

/// The template with each `(key, value)` pair applied in order, every
/// occurrence of `key` replaced by `value`.
pub open spec fn rendered(template: Seq<char>, vars: Seq<(Seq<char>, Seq<char>)>) -> Seq<char>
    decreases vars.len(),
{
    if vars.len() == 0 {
        template
    } else {
        replace_all(rendered(template, vars.drop_last()), vars.last().0, vars.last().1)
    }
}

/// The views of `(key, value)` pairs.
pub open spec fn pairs_view(vars: Seq<(&str, &str)>) -> Seq<(Seq<char>, Seq<char>)> {
    vars.map_values(|p: (&str, &str)| (p.0@, p.1@))
}

/// Replaces each token `key` of `vars` by its `value`, pair by pair.
pub fn render_template(template: &str, vars: &[(&str, &str)]) -> (r: String)
    ensures
        r@ == rendered(template@, pairs_view(vars@)),
{
    let mut out = String::from_str(template);
    let mut i: usize = 0;
    while i < vars.len()
        invariant
            i <= vars@.len(),
            out@ == rendered(template@, pairs_view(vars@.take(i as int))),
        decreases vars@.len() - i,
    {
        let (key, value) = vars[i];
        assert(pairs_view(vars@.take(i as int + 1)).drop_last() =~= pairs_view(vars@.take(i as int)));
        out = replace_str(out.as_str(), key, value);
        i = i + 1;
    }
    assert(vars@.take(vars@.len() as int) =~= vars@);
    out
}

/// The doctor domain system prompt.
pub fn doctor_domain_system() -> (r: String)
    ensures
        r@ == prompt_block(DOCTOR_DOMAIN_SYSTEM_MD@),
{
    extract_prompt_block(DOCTOR_DOMAIN_SYSTEM_MD)
}

/// The doctor history preamble prompt.
pub fn doctor_history_preamble() -> (r: String)
    ensures
        r@ == prompt_block(DOCTOR_HISTORY_PREAMBLE_MD@),
{
    extract_prompt_block(DOCTOR_HISTORY_PREAMBLE_MD)
}

/// The install domain system prompt.
pub fn install_domain_system() -> (r: String)
    ensures
        r@ == prompt_block(INSTALL_DOMAIN_SYSTEM_MD@),
{
    extract_prompt_block(INSTALL_DOMAIN_SYSTEM_MD)
}

/// The install history preamble prompt.
pub fn install_history_preamble() -> (r: String)
    ensures
        r@ == prompt_block(INSTALL_HISTORY_PREAMBLE_MD@),
{
    extract_prompt_block(INSTALL_HISTORY_PREAMBLE_MD)
}

/// The prompt that asks for guidance on a failed operation.
pub fn error_guidance_operation_fallback() -> (r: String)
    ensures
        r@ == prompt_block(ERROR_GUIDANCE_OPERATION_FALLBACK_MD@),
{
    extract_prompt_block(ERROR_GUIDANCE_OPERATION_FALLBACK_MD)
}

/// The install orchestrator decider prompt.
pub fn install_orchestrator_decider() -> (r: String)
    ensures
        r@ == prompt_block(INSTALL_ORCHESTRATOR_DECIDER_MD@),
{
    extract_prompt_block(INSTALL_ORCHESTRATOR_DECIDER_MD)
}

/// The install target decider prompt.
pub fn install_target_decider() -> (r: String)
    ensures
        r@ == prompt_block(INSTALL_TARGET_DECIDER_MD@),
{
    extract_prompt_block(INSTALL_TARGET_DECIDER_MD)
}

} // verus!
