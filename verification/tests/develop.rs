use tessera_bridge::agent::{
    agent_step, agent_runs, check_request, error_for, instruction_of, is_batch, redo_group_name, AgentGuardrails,
    AgentImageInput, AgentProvider, AgentRunRequest, PlannerConfig,
};
use tessera_bridge::history::{author_text, changes_title, disabled_steps, display_label, redo_chain, step_toggle, toggle_of, Author, HistoryEntry};
use tessera_bridge::lexical::{bare, quote, trim};
use tessera_bridge::viewport::{attach_to_ring, default_level, plan_surface, surface_level, RingSurface};

fn entry(id: u64, parent: Option<u64>, label: &str, rationale: Option<&str>) -> HistoryEntry {
    HistoryEntry {
        id,
        parent,
        label: label.to_string(),
        author: Author::User,
        group: None,
        rationale: rationale.map(str::to_string),
        timestamp_ms: 0,
        change_paths: vec![],
    }
}

#[test]
fn toggles_name_their_step() {
    let off = entry(3, Some(2), "Turn Off Exposure +1.00", Some("tessera:step-toggle:1:off"));
    assert_eq!(toggle_of(&off), Some((1, false)));
    let on = entry(5, Some(4), "Turn On Exposure +1.00", Some("tessera:step-toggle:1:on:extra"));
    assert_eq!(toggle_of(&on), Some((1, true)));
    assert_eq!(toggle_of(&entry(1, None, "Exposure +1.00", Some("because"))), None);
    assert_eq!(toggle_of(&entry(1, None, "x", Some("tessera:step-toggle:1:maybe"))), None);
    assert_eq!(toggle_of(&entry(1, None, "x", None)), None);
}

#[test]
fn disabled_steps_replay_the_toggles_in_order() {
    let lineage = vec![
        entry(1, None, "Exposure +1.00", None),
        entry(2, Some(1), "Contrast +20", None),
        entry(3, Some(2), "Turn Off Exposure +1.00", Some("tessera:step-toggle:1:off")),
        entry(4, Some(3), "Shadows +10", None),
    ];
    assert_eq!(disabled_steps(&lineage), [1].into());
    let mut more = lineage.clone();
    more.push(entry(5, Some(4), "Turn On Exposure +1.00", Some("tessera:step-toggle:1:on")));
    assert!(disabled_steps(&more).is_empty());
}

#[test]
fn agent_steps_read_as_their_controls() {
    let mut e = entry(1, None, "set_tone", Some("warmer"));
    e.author = Author::Agent { name: "tessera-mcp".to_string() };
    e.change_paths = vec![
        "/color/vibrance".to_string(),
        "/white_balance/mode".to_string(),
        "/white_balance/temperature".to_string(),
    ];
    assert_eq!(display_label(&e), "Vibrance, Temperature");
    let mut user = e.clone();
    user.author = Author::User;
    assert_eq!(display_label(&user), "set_tone");
    assert_eq!(changes_title(&vec![]), "No change");
    assert_eq!(changes_title(&vec!["/tone/white_clip".to_string(), "/tone/white_clip".to_string()]), "White clip");
}

#[test]
fn redo_follows_the_newest_child() {
    let entries = vec![
        entry(1, None, "a", None),
        entry(2, Some(1), "b", None),
        entry(3, Some(1), "c", None),
        entry(4, Some(3), "d", None),
    ];
    assert_eq!(redo_chain(&entries, Some(1), 1), vec![2, 3]);
    assert_eq!(redo_chain(&entries, Some(4), 3), Vec::<usize>::new());
    assert_eq!(redo_chain(&entries, None, 0), vec![0, 2, 3]);
}

#[test]
fn develop_surfaces_follow_the_pyramid() {
    let extents = vec![(6000, 4000), (3000, 2000), (1500, 1000), (750, 500)];
    let p = plan_surface(&extents, 1400, 900);
    assert_eq!((p.level, p.width, p.height), (2, 1500, 1000));
    assert_eq!(default_level(&extents), 2);
    assert_eq!(surface_level(&extents, 3000, 2000).unwrap(), 1);
    assert_eq!(
        surface_level(&extents, 3000, 2001).unwrap_err().message_text(),
        "surface size must come from plan_surface"
    );
}

fn surface(id: u32, width: u32) -> RingSurface {
    RingSurface { id, width, height: 100, float: false }
}

#[test]
fn the_ring_holds_three_surfaces_of_one_size() {
    let mut ring = Vec::new();
    let mut level = 0;
    assert!(attach_to_ring(&mut ring, &mut level, surface(1, 100), 2));
    assert!(!attach_to_ring(&mut ring, &mut level, surface(2, 100), 2));
    assert!(!attach_to_ring(&mut ring, &mut level, surface(3, 100), 2));
    assert!(!attach_to_ring(&mut ring, &mut level, surface(4, 100), 2));
    assert_eq!(ring.iter().map(|s| s.id).collect::<Vec<_>>(), vec![2, 3, 4]);
    assert!(!attach_to_ring(&mut ring, &mut level, surface(3, 100), 2));
    assert_eq!(ring.iter().map(|s| s.id).collect::<Vec<_>>(), vec![2, 4, 3]);
    assert!(attach_to_ring(&mut ring, &mut level, surface(5, 200), 2));
    assert_eq!(ring.iter().map(|s| s.id).collect::<Vec<_>>(), vec![5]);
    assert!(attach_to_ring(&mut ring, &mut level, surface(6, 200), 1));
    assert_eq!(level, 1);
}

fn guardrails(max_iterations: u32, time_budget_seconds: u32) -> AgentGuardrails {
    AgentGuardrails {
        allow_masks: true,
        allow_crop: false,
        allow_skin_retouch: false,
        visual_critic: false,
        max_iterations,
        time_budget_seconds,
    }
}

fn image(id: &str, burst: Option<&str>) -> AgentImageInput {
    AgentImageInput { image_id: id.to_string(), burst: burst.map(str::to_string), people: vec![] }
}

#[test]
fn agent_requests_are_checked() {
    let mut request = AgentRunRequest {
        images: vec![],
        library_folder: String::new(),
        provider: AgentProvider::Scripted,
        guardrails: guardrails(3, 60),
        instruction: None,
    };
    assert_eq!(check_request(&request).unwrap_err().message_text(), "no images to edit");
    request.images.push(image("a", None));
    assert!(check_request(&request).is_ok());
    request.guardrails = guardrails(21, 60);
    assert_eq!(
        check_request(&request).unwrap_err().message_text(),
        "iterations must be 1...20 and the time budget positive"
    );
    request.guardrails = guardrails(2, 0);
    assert!(check_request(&request).is_err());
}

#[test]
fn providers_need_keys_and_hosts() {
    let anthropic = AgentProvider::Anthropic { api_key: "  ".to_string(), model: "m".to_string() };
    assert_eq!(anthropic.planner_config().unwrap_err().message_text(), "add an Anthropic API key in Settings ▸ AI");
    let openai = AgentProvider::OpenAi { api_key: " k ".to_string(), model: "gpt".to_string() };
    match openai.planner_config().unwrap() {
        Some(PlannerConfig::OpenAi { api_key, model }) => assert_eq!((api_key.as_str(), model.as_str()), ("k", "gpt")),
        other => panic!("unexpected {other:?}"),
    }
    assert_eq!(openai.name(), "OpenAI gpt");
    let ollama = AgentProvider::Ollama { host: "localhost:11434/".to_string(), model: "llava".to_string(), vision: true };
    match ollama.planner_config().unwrap() {
        Some(PlannerConfig::Ollama { endpoint, .. }) => assert_eq!(endpoint, "http://localhost:11434/api/chat"),
        other => panic!("unexpected {other:?}"),
    }
    assert!(AgentProvider::StyleProfile.planner_config().unwrap().is_none());
    assert_eq!(AgentProvider::StyleProfile.name(), "style profile");
}

#[test]
fn agent_runs_are_batches_with_groups() {
    assert!(!is_batch(&vec![image("a", Some("b1"))]));
    assert!(!is_batch(&vec![image("a", None), image("b", None)]));
    assert!(is_batch(&vec![image("a", None), image("b", Some("b1"))]));
    assert_eq!(instruction_of(&Some("  warmer ".to_string())).as_deref(), Some("warmer"));
    assert_eq!(instruction_of(&Some("   ".to_string())), None);
    assert_eq!(redo_group_name("warmer"), "Agent redo: warmer");
    assert_eq!(redo_group_name(&"x".repeat(50)), format!("Agent redo: {}", "x".repeat(40)));
    let errors = vec![(Some(2), "bad 2".to_string()), (None, "all".to_string())];
    assert_eq!(error_for(&errors, 2).as_deref(), Some("bad 2"));
    assert_eq!(error_for(&errors, 1).as_deref(), Some("all"));
    assert_eq!(error_for(&vec![], 1), None);
    let names: Vec<String> = ["Agent base edit", "Agent redo: warmer", "Mine", "Agen"].iter().map(|s| s.to_string()).collect();
    assert_eq!(agent_runs(&names), 2);
}

#[test]
fn words_are_quoted_when_needed() {
    assert!(bare("beach"));
    assert!(!bare("EOS R5"));
    assert_eq!(quote("beach"), "beach");
    assert_eq!(quote("EOS R5"), "\"EOS R5\"");
    assert_eq!(trim("\t a b \n"), "a b");
}

#[test]
fn agent_steps_are_listed_for_review() {
    let mut e = entry(7, Some(6), "set_tone", Some("brighter"));
    e.author = Author::Agent { name: "tessera-mcp".to_string() };
    e.change_paths = vec!["/tone/exposure".to_string()];
    let off: std::collections::BTreeSet<u64> = [3].into();
    let step = agent_step(&e, &off, &vec![6, 7]);
    assert_eq!((step.entry_id, step.title.as_str(), step.rationale.as_str(), step.enabled), (7, "Exposure", "brighter", true));
    assert!(!agent_step(&e, &[7].into(), &vec![6, 7]).enabled);
    assert!(!agent_step(&e, &off, &vec![6]).enabled);
    let mut held = entry(8, Some(7), "set_tone", Some("kept to the consensus look"));
    held.author = Author::Agent { name: "tessera-mcp".to_string() };
    assert_eq!(agent_step(&held, &off, &vec![8]).title, "Held to the shoot's shared look");
    let plain = entry(9, None, "x", None);
    let s = agent_step(&plain, &off, &vec![]);
    assert_eq!((s.title.as_str(), s.rationale.as_str()), ("No change", ""));
}

#[test]
fn authors_read_as_their_kind() {
    assert_eq!(author_text(&Author::User), "user");
    assert_eq!(author_text(&Author::Agent { name: "a".to_string() }), "agent:a");
    assert_eq!(author_text(&Author::Import { source: "lr".to_string() }), "import:lr");
    assert_eq!(author_text(&Author::Preset { style: "warm".to_string() }), "preset:warm");
    assert_eq!(author_text(&Author::Sync { from: "x".to_string() }), "sync:x");
}

#[test]
fn steps_are_toggled_with_a_label_and_a_marker() {
    let lineage = vec![
        entry(1, None, "Exposure +1.00", None),
        entry(2, Some(1), "Contrast +20", None),
    ];
    let (label, rationale) = step_toggle(&lineage, 1, false, false).unwrap().unwrap();
    assert_eq!(label, "Turn Off Exposure +1.00");
    assert_eq!(rationale, "tessera:step-toggle:1:off");
    // already on: nothing to record
    assert_eq!(step_toggle(&lineage, 1, true, false).unwrap(), None);
    let mut later = lineage.clone();
    later.push(entry(3, Some(2), "Turn Off Exposure +1.00", Some("tessera:step-toggle:1:off")));
    let (label, rationale) = step_toggle(&later, 1, true, false).unwrap().unwrap();
    assert_eq!(label, "Turn On Exposure +1.00");
    assert_eq!(rationale, "tessera:step-toggle:1:on");
    assert_eq!(step_toggle(&later, 1, false, false).unwrap(), None);
    assert_eq!(
        step_toggle(&later, 9, false, false).unwrap_err().message_text(),
        "only applied history steps can be toggled"
    );
    assert_eq!(
        step_toggle(&later, 3, true, false).unwrap_err().message_text(),
        "a step toggle cannot itself be toggled"
    );
    assert_eq!(
        step_toggle(&later, 2, false, true).unwrap_err().message_text(),
        "a group amount step cannot be toggled"
    );
}
