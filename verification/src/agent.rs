//! Agentic base edits: who plans them, the guardrails a run must respect,
//! and how a run's requests and results are checked and labelled.
use vstd::prelude::*;
use vstd::string::*;
use crate::ids::{BridgeError, failure};
use crate::lexical::{trim, trimmed};
use crate::text::{chars_of, string_of, concat_str};
use crate::history::{HistoryEntry, changes_title, changes_title_of};
use std::collections::BTreeSet;

verus! {

/// Who plans the base edit. Keys are passed per run; they are never stored,
/// logged or included in errors.
#[derive(Clone)]
pub enum AgentProvider {
    /// The style profile's prediction alone (no network).
    StyleProfile,
    Anthropic { api_key: String, model: String },
    OpenAi { api_key: String, model: String },
    /// Local Ollama; `host` is an origin such as `http://localhost:11434`.
    Ollama { host: String, model: String, vision: bool },
    /// Hidden test aid: a deterministic scripted planner (no key, no network).
    Scripted,
}

pub open spec fn provider_name(p: AgentProvider) -> Seq<char> {
    match p {
        AgentProvider::StyleProfile => "style profile"@,
        AgentProvider::Anthropic { model, .. } => "Anthropic "@ + model@,
        AgentProvider::OpenAi { model, .. } => "OpenAI "@ + model@,
        AgentProvider::Ollama { model, .. } => "Ollama "@ + model@,
        AgentProvider::Scripted => "scripted planner"@,
    }
}

/// A planner's configuration once the provider has been checked.
#[derive(Clone, Debug)]
pub enum PlannerConfig {
    Anthropic { api_key: String, model: String },
    OpenAi { api_key: String, model: String },
    /// `endpoint` is the chat URL derived from the host.
    Ollama { model: String, endpoint: String, vision: bool },
    Scripted,
}

/// `pat` occurs in `s`.
pub open spec fn contains_text(s: Seq<char>, pat: Seq<char>) -> bool {
    exists|i: int| 0 <= i && i + pat.len() <= s.len() && #[trigger] s.subrange(i, i + pat.len()) == pat
}

/// `s` without trailing `c` characters (`str::trim_end_matches`).
pub open spec fn strip_trailing(s: Seq<char>, c: char) -> Seq<char>
    decreases s.len(),
{
    if s.len() > 0 && s.last() == c {
        strip_trailing(s.drop_last(), c)
    } else {
        s
    }
}

/// An origin as a URL: the scheme defaults to `http://`.
pub open spec fn with_scheme(host: Seq<char>) -> Seq<char> {
    if contains_text(host, "://"@) {
        host
    } else {
        "http://"@ + host
    }
}

/// The Ollama chat endpoint of a host.
pub open spec fn ollama_endpoint(host: Seq<char>) -> Seq<char> {
    strip_trailing(with_scheme(host), '/') + "/api/chat"@
}

impl AgentProvider {
    pub fn name(&self) -> (r: String)
        ensures
            r@ == provider_name(*self),
    {
        match self {
            AgentProvider::StyleProfile => String::from_str("style profile"),
            AgentProvider::Anthropic { model, .. } => concat_str(&String::from_str("Anthropic "), model.as_str()),
            AgentProvider::OpenAi { model, .. } => concat_str(&String::from_str("OpenAI "), model.as_str()),
            AgentProvider::Ollama { model, .. } => concat_str(&String::from_str("Ollama "), model.as_str()),
            AgentProvider::Scripted => String::from_str("scripted planner"),
        }
    }

    /// The planner to run: none for the style profile alone; keys must not
    /// be blank (they are passed trimmed).
    pub fn planner_config(&self) -> (r: Result<Option<PlannerConfig>, BridgeError>)
        ensures
            match *self {
                AgentProvider::StyleProfile => r matches Ok(None),
                AgentProvider::Anthropic { api_key, model } => if trimmed(api_key@).len() == 0 {
                    r is Err && r->Err_0.message() == "add an Anthropic API key in Settings ▸ AI"@
                } else {
                    r matches Ok(Some(PlannerConfig::Anthropic { api_key: k, model: m }))
                        && k@ == trimmed(api_key@) && m@ == model@
                },
                AgentProvider::OpenAi { api_key, model } => if trimmed(api_key@).len() == 0 {
                    r is Err && r->Err_0.message() == "add an OpenAI API key in Settings ▸ AI"@
                } else {
                    r matches Ok(Some(PlannerConfig::OpenAi { api_key: k, model: m }))
                        && k@ == trimmed(api_key@) && m@ == model@
                },
                AgentProvider::Ollama { host, model, vision } => r matches Ok(
                    Some(PlannerConfig::Ollama { model: m, endpoint: e, vision: v }),
                ) && m@ == model@ && e@ == ollama_endpoint(host@) && v == vision,
                AgentProvider::Scripted => r matches Ok(Some(PlannerConfig::Scripted)),
            },
    {
        match self {
            AgentProvider::StyleProfile => Ok(None),
            AgentProvider::Anthropic { api_key, model } => {
                let key = trim(api_key.as_str());
                if key.unicode_len() == 0 {
                    return Err(failure("add an Anthropic API key in Settings ▸ AI"));
                }
                Ok(Some(PlannerConfig::Anthropic { api_key: key, model: model.clone() }))
            },
            AgentProvider::OpenAi { api_key, model } => {
                let key = trim(api_key.as_str());
                if key.unicode_len() == 0 {
                    return Err(failure("add an OpenAI API key in Settings ▸ AI"));
                }
                Ok(Some(PlannerConfig::OpenAi { api_key: key, model: model.clone() }))
            },
            AgentProvider::Ollama { host, model, vision } => {
                let endpoint = ollama_endpoint_exec(host);
                Ok(Some(PlannerConfig::Ollama { model: model.clone(), endpoint, vision: *vision }))
            },
            AgentProvider::Scripted => Ok(Some(PlannerConfig::Scripted)),
        }
    }
}

fn contains_exec(s: &Vec<char>, pat: &Vec<char>) -> (r: bool)
    ensures
        r == contains_text(s@, pat@),
{
    if pat.len() > s.len() {
        return false;
    }
    let mut i: usize = 0;
    while i <= s.len() - pat.len()
        invariant
            pat.len() <= s.len(),
            i <= s.len() - pat.len() + 1,
            forall|j: int| 0 <= j < i ==> #[trigger] s@.subrange(j, j + pat.len()) != pat@,
        decreases s.len() - i,
    {
        let mut k: usize = 0;
        let mut same = true;
        while k < pat.len()
            invariant
                i + pat.len() <= s.len(),
                k <= pat.len(),
                same == (forall|m: int| 0 <= m < k ==> s@[i + m] == pat@[m]),
            decreases pat.len() - k,
        {
            if s[i + k] != pat[k] {
                same = false;
            }
            k = k + 1;
        }
        if same {
            assert(s@.subrange(i as int, i + pat.len()) =~= pat@);
            return true;
        }
        assert(s@.subrange(i as int, i + pat.len()) != pat@) by {
            let m = choose|m: int| 0 <= m < pat.len() && s@[i + m] != pat@[m];
            assert(s@.subrange(i as int, i + pat.len())[m] != pat@[m]);
        }
        i = i + 1;
    }
    proof {
        if contains_text(s@, pat@) {
            let j = choose|j: int| 0 <= j && j + pat.len() <= s.len() && #[trigger] s@.subrange(j, j + pat.len()) == pat@;
            assert(j < i);
        }
    }
    false
}

fn ollama_endpoint_exec(host: &String) -> (r: String)
    ensures
        r@ == ollama_endpoint(host@),
{
    let h = chars_of(host.as_str());
    let sep = chars_of("://");
    let url = if contains_exec(&h, &sep) {
        host.clone()
    } else {
        concat_str(&String::from_str("http://"), host.as_str())
    };
    let u = chars_of(url.as_str());
    let kept = strip_trailing_chars(&u, '/');
    concat_str(&string_of(&kept), "/api/chat")
}

fn strip_trailing_chars(u: &Vec<char>, c: char) -> (r: Vec<char>)
    ensures
        r@ == strip_trailing(u@, c),
{
    let mut end = u.len();
    proof {
        assert(u@.take(u.len() as int) =~= u@);
    }
    while end > 0 && u[end - 1] == c
        invariant
            end <= u.len(),
            strip_trailing(u@, c) == strip_trailing(u@.take(end as int), c),
        decreases end,
    {
        proof {
            assert(u@.take(end as int).drop_last() =~= u@.take(end - 1));
        }
        end = end - 1;
    }
    let mut kept: Vec<char> = Vec::new();
    let mut i: usize = 0;
    while i < end
        invariant
            i <= end,
            end <= u.len(),
            kept@ == u@.take(i as int),
        decreases end - i,
    {
        kept.push(u[i]);
        i = i + 1;
        assert(kept@ =~= u@.take(i as int));
    }
    kept
}

/// Guardrails of a run. No generative pixels in any case.
#[derive(Clone, Debug)]
pub struct AgentGuardrails {
    pub allow_masks: bool,
    pub allow_crop: bool,
    /// Retouch stays blocked until the engine has a reversible operator.
    pub allow_skin_retouch: bool,
    /// Ask the planner's model to judge the rendered preview as well.
    pub visual_critic: bool,
    /// Plan → render → critique rounds per image (1...20).
    pub max_iterations: u32,
    /// Per-image time budget in seconds.
    pub time_budget_seconds: u32,
}

#[derive(Clone, Debug)]
pub struct AgentImageInput {
    pub image_id: String,
    /// Scene / burst key: images sharing one get the same tone and white balance.
    pub burst: Option<String>,
    /// Person identities: the same person gets the same exposure and skin treatment.
    pub people: Vec<String>,
}

#[derive(Clone)]
pub struct AgentRunRequest {
    pub images: Vec<AgentImageInput>,
    /// Library folder (style profile identity).
    pub library_folder: String,
    pub provider: AgentProvider,
    pub guardrails: AgentGuardrails,
    /// Natural-language redo ("warmer, keep the sky").
    pub instruction: Option<String>,
}

#[derive(Clone, Debug)]
pub struct AgentRunProgress {
    pub done: u32,
    pub total: u32,
    /// File name being edited next (empty when finished).
    pub current: String,
    pub phase: String,
}

/// Called on the running thread before each image and after the last.
pub trait AgentRunListener {
    fn on_progress(&self, progress: AgentRunProgress);
}

#[derive(Clone, Debug)]
pub struct AgentStep {
    /// History entry id (for the per-step toggle).
    pub entry_id: u64,
    /// Controls the step sets, e.g. "Exposure, Contrast".
    pub title: String,
    pub rationale: String,
    pub enabled: bool,
}

#[derive(Clone, Debug)]
pub struct AgentAcceptResult {
    /// The style profile learned from this image's final settings.
    pub feedback_recorded: bool,
    pub samples: u32,
    /// Why feedback was not recorded, if it was not.
    pub note: Option<String>,
}

/// Why a run request is refused, if it is: no images, or iterations
/// outside 1...20 or a zero time budget.
pub open spec fn request_problem(images: nat, g: AgentGuardrails) -> Option<Seq<char>> {
    if images == 0 {
        Some("no images to edit"@)
    } else if !(1 <= g.max_iterations <= 20) || g.time_budget_seconds == 0 {
        Some("iterations must be 1...20 and the time budget positive"@)
    } else {
        None
    }
}

pub fn check_request(request: &AgentRunRequest) -> (r: Result<(), BridgeError>)
    ensures
        match request_problem(request.images@.len(), request.guardrails) {
            None => r is Ok,
            Some(m) => r is Err && r->Err_0.message() == m,
        },
{
    if request.images.len() == 0 {
        return Err(failure("no images to edit"));
    }
    let g = &request.guardrails;
    if !(1 <= g.max_iterations && g.max_iterations <= 20) || g.time_budget_seconds == 0 {
        return Err(failure("iterations must be 1...20 and the time budget positive"));
    }
    Ok(())
}

/// The redo instruction, trimmed; blank counts as none.
pub fn instruction_of(instruction: &Option<String>) -> (r: Option<String>)
    ensures
        match *instruction {
            Some(s) => if trimmed(s@).len() == 0 {
                r is None
            } else {
                r is Some && r->0@ == trimmed(s@)
            },
            None => r is None,
        },
{
    match instruction {
        Some(s) => {
            let t = trim(s.as_str());
            if t.unicode_len() == 0 {
                None
            } else {
                Some(t)
            }
        },
        None => None,
    }
}

/// Several images with a burst or people are planned as one consistent shoot.
pub open spec fn is_batch_run(images: Seq<AgentImageInput>) -> bool {
    images.len() > 1 && exists|i: int|
        0 <= i < images.len() && (#[trigger] images[i].burst is Some || images[i].people@.len() > 0)
}

pub fn is_batch(images: &Vec<AgentImageInput>) -> (r: bool)
    ensures
        r == is_batch_run(images@),
        r <==> images@.len() > 1 && exists|i: int|
            0 <= i < images@.len() && (#[trigger] images@[i].burst is Some || images@[i].people@.len() > 0),
{
    if images.len() <= 1 {
        return false;
    }
    let mut i: usize = 0;
    while i < images.len()
        invariant
            i <= images.len(),
            images.len() > 1,
            forall|j: int| 0 <= j < i ==> !(#[trigger] images@[j].burst is Some || images@[j].people@.len() > 0),
        decreases images.len() - i,
    {
        if images[i].burst.is_some() || images[i].people.len() > 0 {
            assert(images@[i as int].burst is Some || images@[i as int].people@.len() > 0);
            return true;
        }
        i = i + 1;
    }
    false
}

/// A run of several images is planned as one batch as soon as one image
/// has people in it (or a burst); a single image never is, nor are several
/// images with neither.
pub proof fn images_with_people_are_one_batch(images: Seq<AgentImageInput>, i: int)
    requires
        images.len() > 1,
        0 <= i < images.len(),
        images[i].people@.len() > 0 || images[i].burst is Some,
    ensures
        is_batch_run(images),
{
    assert(images[i].burst is Some || images[i].people@.len() > 0);
}

/// A run is a batch only when it has several images and one of them has
/// people or a burst.
pub proof fn batches_need_people_or_bursts(images: Seq<AgentImageInput>)
    requires
        is_batch_run(images),
    ensures
        images.len() > 1,
        exists|i: int| 0 <= i < images.len() && (#[trigger] images[i].people@.len() > 0 || images[i].burst is Some),
{
    let i = choose|i: int| 0 <= i < images.len() && (#[trigger] images[i].burst is Some || images[i].people@.len() > 0);
    assert(images[i].people@.len() > 0 || images[i].burst is Some);
}

/// A redo's history group is named after its instruction (first 40 characters).
pub open spec fn redo_group_name_of(instruction: Seq<char>) -> Seq<char> {
    "Agent redo: "@ + instruction.take(if instruction.len() < 40 { instruction.len() as int } else { 40 })
}

pub fn redo_group_name(instruction: &str) -> (r: String)
    ensures
        r@ == redo_group_name_of(instruction@),
{
    let cs = chars_of(instruction);
    let n = if cs.len() < 40 { cs.len() } else { 40 };
    let mut short: Vec<char> = Vec::new();
    let mut i: usize = 0;
    while i < n
        invariant
            i <= n,
            n <= cs.len(),
            short@ == cs@.take(i as int),
        decreases n - i,
    {
        short.push(cs[i]);
        i = i + 1;
        assert(short@ =~= cs@.take(i as int));
    }
    concat_str(&String::from_str("Agent redo: "), string_of(&short).as_str())
}

/// A run's error for image `n`: the first error recorded for it or for the
/// whole batch (`None` as the index).
pub open spec fn error_for_image(errors: Seq<(Option<u64>, String)>, n: u64) -> Option<String>
    decreases errors.len(),
{
    if errors.len() == 0 {
        None
    } else if errors[0].0 == Some(n) || errors[0].0 is None {
        Some(errors[0].1)
    } else {
        error_for_image(errors.drop_first(), n)
    }
}

pub fn error_for(errors: &Vec<(Option<u64>, String)>, n: u64) -> (r: Option<String>)
    ensures
        r == error_for_image(errors@, n),
{
    let mut i: usize = 0;
    proof {
        assert(errors@.skip(0) =~= errors@);
    }
    while i < errors.len()
        invariant
            i <= errors.len(),
            error_for_image(errors@, n) == error_for_image(errors@.skip(i as int), n),
        decreases errors.len() - i,
    {
        proof {
            assert(errors@.skip(i as int).drop_first() =~= errors@.skip(i + 1));
            assert(errors@.skip(i as int)[0] == errors@[i as int]);
        }
        let matches = match errors[i].0 {
            Some(k) => k == n,
            None => true,
        };
        if matches {
            return Some(errors[i].1.clone());
        }
        i = i + 1;
    }
    None
}

/// Number of agent history groups (base edit and redos): names starting "Agent".
pub open spec fn agent_group_count(names: Seq<Seq<char>>) -> nat
    decreases names.len(),
{
    if names.len() == 0 {
        0
    } else {
        agent_group_count(names.drop_last()) + if names.last().len() >= 5 && names.last().take(5)
            == "Agent"@ {
            1nat
        } else {
            0nat
        }
    }
}

pub fn agent_runs(names: &Vec<String>) -> (r: u32)
    requires
        names.len() <= u32::MAX,
    ensures
        r == agent_group_count(names@.map_values(|s: String| s@)),
{
    let prefix = chars_of("Agent");
    let mut count: u32 = 0;
    let mut i: usize = 0;
    while i < names.len()
        invariant
            i <= names.len(),
            names.len() <= u32::MAX,
            prefix@ == "Agent"@,
            count == agent_group_count(names@.map_values(|s: String| s@).take(i as int)),
            count <= i,
        decreases names.len() - i,
    {
        let cs = chars_of(names[i].as_str());
        let mut starts = cs.len() >= prefix.len();
        let mut k: usize = 0;
        while starts && k < prefix.len()
            invariant
                k <= prefix.len(),
                starts ==> cs.len() >= prefix.len(),
                starts == (cs.len() >= prefix.len() && forall|m: int| 0 <= m < k ==> cs@[m] == prefix@[m]),
            decreases prefix.len() - k,
        {
            if cs[k] != prefix[k] {
                starts = false;
            }
            k = k + 1;
        }
        proof {
            let t = names@.map_values(|s: String| s@);
            assert(t.take(i + 1).drop_last() =~= t.take(i as int));
            assert(t.take(i + 1).last() == cs@);
            reveal_strlit("Agent");
            if starts {
                assert(cs@.take(5) =~= prefix@);
            } else if cs@.len() >= 5 {
                let m = choose|m: int| 0 <= m < 5 && cs@[m] != prefix@[m];
                assert(cs@.take(5)[m] != prefix@[m]);
            }
        }
        if starts {
            count = count + 1;
        }
        i = i + 1;
    }
    proof {
        assert(names@.map_values(|s: String| s@).take(names.len() as int) =~= names@.map_values(|s: String| s@));
    }
    count
}

// ─────────────────────────────── review ───────────────────────────────

/// An agent step's title: steps that changed nothing to follow the shoot's
/// consensus say so; the others name the controls they set.
pub open spec fn step_title_of(e: HistoryEntry) -> Seq<char> {
    let rationale = match e.rationale {
        Some(r) => r@,
        None => Seq::empty(),
    };
    if e.change_paths@.len() == 0 && e.rationale is Some && contains_text(rationale, "consensus"@) {
        "Held to the shoot's shared look"@
    } else {
        changes_title_of(crate::history::texts_of(e.change_paths@))
    }
}

/// A history entry of an agent run as the review lists it: enabled unless
/// turned off or not on the current lineage.
pub fn agent_step(e: &HistoryEntry, off: &BTreeSet<u64>, lineage: &Vec<u64>) -> (r: AgentStep)
    ensures
        r.entry_id == e.id,
        r.title@ == step_title_of(*e),
        r.rationale@ == (match e.rationale {
            Some(t) => t@,
            None => Seq::<char>::empty(),
        }),
        r.enabled == (!off@.contains(e.id) && lineage@.contains(e.id)),
{
    let held = match &e.rationale {
        Some(t) => e.change_paths.len() == 0 && contains_exec(&chars_of(t.as_str()), &chars_of("consensus")),
        None => false,
    };
    let title = if held {
        String::from_str("Held to the shoot's shared look")
    } else {
        changes_title(&e.change_paths)
    };
    let rationale = match &e.rationale {
        Some(t) => t.clone(),
        None => String::new(),
    };
    let mut on_lineage = false;
    let mut i: usize = 0;
    while i < lineage.len()
        invariant
            i <= lineage.len(),
            on_lineage == exists|j: int| 0 <= j < i && lineage@[j] == e.id,
        decreases lineage.len() - i,
    {
        if lineage[i] == e.id {
            on_lineage = true;
        }
        i = i + 1;
    }
    AgentStep { entry_id: e.id, title, rationale, enabled: !off.contains(&e.id) && on_lineage }
}

} // verus!
