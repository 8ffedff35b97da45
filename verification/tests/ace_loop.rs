use prompt_pilot::ace_loop::{
    conversation_distillation_has_context, preview_from_reply, review_prompt_pilot_ace_guardrails,
    AceAction, AceAgentDecision, AceConversationDistillation, AceFailure, AceGuardrailReview,
    AceLoop, AceStep, EnhanceReply,
};
use prompt_pilot::ace_notes::{
    assessment_note_for_action, display_paths, fallback_reason, high_signal_paths,
    is_low_signal_display_path, non_empty_limited, push_ace_loop_note, search_result_note,
    snippet_result_note, trim_progress_text, truncate_chars,
};
use prompt_pilot::context_engine::{collect_bootstrap_context_pack, ProjectReads};
use prompt_pilot::context_pack::ContextPack;
use prompt_pilot::preview::PromptPilotPreview;
use prompt_pilot::progress::AceProgressStep;
use prompt_pilot::retriever::FileMatch;

fn owned(items: &[&str]) -> Vec<String> {
    items.iter().map(|item| item.to_string()).collect()
}

fn pack() -> ContextPack {
    collect_bootstrap_context_pack(
        "fix login",
        ProjectReads {
            repo_root: "/repo".to_string(),
            docs: vec![None, None, None],
            rule_sources: Vec::new(),
            rules: Vec::new(),
            manifests: vec![None, None, None, None],
            git: None,
        },
    )
}

fn decision(action: &str) -> AceAgentDecision {
    AceAgentDecision {
        likely_understanding: " fix it ".to_string(),
        action: action.to_string(),
        reason: " because ".to_string(),
        queries: owned(&[" login ", " ", "auth"]),
        paths: owned(&["src/login.rs", "../x", "gone.rs"]),
        enhanced_prompt: " Fix the login flow. ".to_string(),
    }
}

fn last_notes(step: &AceStep) -> Vec<String> {
    step.reports.last().map(|report| report.notes().clone()).unwrap_or_default()
}

fn result(step: AceStep) -> Result<PromptPilotPreview, String> {
    match step.action {
        AceAction::Finish { result } => result,
        _ => panic!("the loop should have ended"),
    }
}

fn review(status: &str, enhanced_prompt: &str) -> AceGuardrailReview {
    AceGuardrailReview {
        status: status.to_string(),
        reason: " too broad ".to_string(),
        likely_understanding: String::new(),
        enhanced_prompt: enhanced_prompt.to_string(),
    }
}

#[test]
fn a_whole_run() {
    let (mut ace, step) = AceLoop::start(
        "fix login".to_string(),
        3,
        pack(),
        Some("earlier talk".to_string()),
    );
    assert!(matches!(
        step.action,
        AceAction::Distill { conversation_context } if conversation_context == "earlier talk"
    ));
    assert_eq!(step.reports.len(), 1);
    assert_eq!(
        step.reports[0].notes().clone(),
        owned(&[
            "Collected project context from docs, rules, manifests, and git state",
            "Distilling conversation context"
        ])
    );

    let step = ace.on_distillation(None);
    assert!(matches!(step.action, AceAction::Ask { force_finish: false }));
    assert_eq!(
        last_notes(&step)[1..],
        owned(&[
            "Could not extract conversation context; continuing with project context",
            "Checking whether more context is needed (1/3)"
        ])
    );

    let step = ace.on_decision(Ok(decision("search_files")));
    let queries = match step.action {
        AceAction::Search { queries } => queries,
        _ => panic!("a search should be asked for"),
    };
    assert_eq!(queries, owned(&["login", "auth"]));
    let searches = vec![
        vec![FileMatch {
            path: "src/login.rs".to_string(),
            is_file: true,
        }],
        Vec::new(),
    ];
    let step = ace.on_search(&searches);
    assert!(matches!(step.action, AceAction::Ask { force_finish: false }));
    assert_eq!(step.reports.len(), 2);
    assert_eq!(
        step.reports[0].notes().last().map(String::as_str),
        Some("Found likely files: src/login.rs")
    );
    assert_eq!(ace.iteration, 1);
    assert_eq!(ace.observations.len(), 1);
    assert_eq!(ace.observations[0].summary, "because");
    assert_eq!(ace.context_pack.relevant_files[0].path, "src/login.rs");

    let step = ace.on_decision(Ok(decision("read_small_snippets")));
    let targets = match step.action {
        AceAction::Read { targets } => targets,
        _ => panic!("files should be asked for"),
    };
    assert_eq!(targets, owned(&["/repo/src/login.rs", "/repo/gone.rs"]));
    let step = ace.on_contents(&vec![Some(b"fn login() {}".to_vec()), None]);
    assert!(matches!(step.action, AceAction::Ask { force_finish: true }));
    assert_eq!(
        step.reports[0].notes().last().map(String::as_str),
        Some("Read snippets from: src/login.rs")
    );
    assert_eq!(ace.observations[1].snippets[0].content, "fn login() {}");
    assert_eq!(ace.context_pack.relevant_files.len(), 1);
    assert_eq!(ace.context_pack.relevant_files[0].confidence, 65);

    let step = ace.on_decision(Ok(decision("finish")));
    assert!(matches!(step.action, AceAction::Review));
    assert_eq!(step.reports.len(), 2);
    assert_eq!(step.reports[1].current(), Some(AceProgressStep::ReviewingGuardrails));
    assert_eq!(ace.draft().map(|draft| draft.enhanced_prompt.as_str()), Some("Fix the login flow."));

    let step = ace.on_review(Ok(review("repair", " Fix the login flow of the app. ")));
    let preview = result(step).expect("preview");
    assert_eq!(preview.original_prompt, "fix login");
    assert_eq!(preview.understanding, "fix it");
    assert_eq!(preview.enhanced_prompt, "Fix the login flow of the app.");
    assert!(ace.draft().is_none());
}

#[test]
fn the_limit_leads_to_a_draft() {
    let (mut ace, step) = AceLoop::start("fix login".to_string(), 1, pack(), None);
    assert!(matches!(step.action, AceAction::Ask { force_finish: true }));
    let mut empty = decision("search_files");
    empty.queries = owned(&["  "]);
    let step = ace.on_decision(Ok(empty));
    assert!(matches!(step.action, AceAction::Draft));
    assert_eq!(
        last_notes(&step)[1..],
        owned(&[
            "Assessed context: more file context is needed",
            "Skipped file search because no query was available",
            "Reached iteration limit; drafting from collected context"
        ])
    );
    assert_eq!(ace.observations[0].summary, "Model requested file search without queries.");
    let step = ace.on_draft(Ok(EnhanceReply {
        likely_understanding: "u".to_string(),
        enhanced_prompt: "e".to_string(),
    }));
    assert!(matches!(step.action, AceAction::Review));
    let preview = result(ace.on_review(Ok(review("pass", " ")))).expect("preview");
    assert_eq!(preview.understanding, "u");
    assert_eq!(preview.enhanced_prompt, "e");
}

#[test]
fn no_rounds_lead_to_a_draft_at_once() {
    let (mut ace, step) = AceLoop::start("fix".to_string(), 0, pack(), None);
    assert!(matches!(step.action, AceAction::Draft));
    assert_eq!(
        result(ace.on_draft(Err("down".to_string()))).err(),
        Some("down".to_string())
    );
}

#[test]
fn failures_end_the_loop() {
    let start = || AceLoop::start("fix".to_string(), 2, pack(), None).0;
    assert_eq!(
        result(start().on_decision(Err(AceFailure::Request("down".to_string())))).err(),
        Some("down".to_string())
    );
    assert_eq!(
        result(start().on_decision(Err(AceFailure::Response("bad".to_string())))).err(),
        Some("PromptPilot ACE agent response was invalid: bad".to_string())
    );
    assert_eq!(
        result(start().on_decision(Ok(decision("dance")))).err(),
        Some("PromptPilot ACE returned unknown action `dance`".to_string())
    );
    let mut blank = decision("finish");
    blank.enhanced_prompt = " \n".to_string();
    assert_eq!(
        result(start().on_decision(Ok(blank))).err(),
        Some("PromptPilot ACE returned an empty enhanced prompt".to_string())
    );
    let mut ace = start();
    ace.on_decision(Ok(decision("finish")));
    assert_eq!(
        result(ace.on_review(Err(AceFailure::Response("bad".to_string())))).err(),
        Some("PromptPilot ACE guardrail response was invalid: bad".to_string())
    );
}

#[test]
fn reviews_pass_repair_or_fail() {
    let draft = |enhanced: &str| {
        preview_from_reply(
            "fix".to_string(),
            EnhanceReply {
                likely_understanding: "u".to_string(),
                enhanced_prompt: enhanced.to_string(),
            },
        )
    };
    let reviewed = |enhanced: &str, review: AceGuardrailReview| {
        review_prompt_pilot_ace_guardrails(&draft(enhanced), &review).map(|p| p.enhanced_prompt)
    };
    assert_eq!(reviewed("e", review("pass", "")), Ok("e".to_string()));
    assert_eq!(reviewed("e", review("repair", " r ")), Ok("r".to_string()));
    assert_eq!(
        reviewed("e", review("fail", "")),
        Err("PromptPilot ACE skipped enhancement because semantic guardrails failed: too broad".to_string())
    );
    assert_eq!(
        reviewed("e", review("maybe", "")),
        Err("PromptPilot ACE guardrail review returned unknown status `maybe`".to_string())
    );
    assert_eq!(
        reviewed(" ", review("pass", "")),
        Err("PromptPilot ACE guardrail review returned an empty prompt".to_string())
    );
}

#[test]
fn distillations_with_and_without_context() {
    let mut distillation = AceConversationDistillation {
        likely_understanding: "u".to_string(),
        concise_summary: "s".to_string(),
        hard_constraints: Vec::new(),
        prior_decisions: Vec::new(),
        mentioned_paths: Vec::new(),
        search_hints: Vec::new(),
        uncertainties: Vec::new(),
    };
    assert!(!conversation_distillation_has_context(&distillation));
    let (mut ace, _) = AceLoop::start("fix".to_string(), 2, pack(), Some("talk".to_string()));
    distillation.uncertainties = owned(&["?"]);
    assert!(conversation_distillation_has_context(&distillation));
    let step = ace.on_distillation(Some(distillation));
    assert_eq!(last_notes(&step)[1], "Extracted context from the conversation");
    assert!(ace.conversation_distillation.is_some());
}

#[test]
fn notes() {
    let mut transcript: Vec<String> = Vec::new();
    push_ace_loop_note(&mut transcript, "a");
    push_ace_loop_note(&mut transcript, "a");
    push_ace_loop_note(&mut transcript, "b");
    push_ace_loop_note(&mut transcript, "a");
    assert_eq!(transcript, owned(&["a", "b", "a"]));
    assert_eq!(trim_progress_text(&"é".repeat(220)), "é".repeat(220));
    assert_eq!(trim_progress_text(&"é".repeat(221)), format!("{}...", "é".repeat(220)));
    assert_eq!(truncate_chars("abc", 2), "ab\n[conversation truncated]");
    assert_eq!(truncate_chars("ab", 2), "ab");
    assert_eq!(fallback_reason(" \n"), "no reason provided");
    assert_eq!(fallback_reason(" why "), "why");
    assert_eq!(assessment_note_for_action("finish"), "Assessed context: enough context to draft");
    assert_eq!(
        assessment_note_for_action("read_small_snippets"),
        "Assessed context: likely files should be inspected"
    );
    assert_eq!(assessment_note_for_action("x"), "Assessed collected context");
    assert_eq!(non_empty_limited(&owned(&[" a", "", "b ", "c"]), 2), owned(&["a", "b"]));
}

#[test]
fn results_are_told_briefly() {
    assert!(is_low_signal_display_path("A\\Snapshots\\x.rs"));
    assert!(is_low_signal_display_path("x.SNAP"));
    assert!(is_low_signal_display_path("x.snap.new"));
    assert!(!is_low_signal_display_path("snapshots/x.rs"));
    assert_eq!(search_result_note(&Vec::new()), "No matching files found yet");
    assert_eq!(
        search_result_note(&owned(&["a.snap", "b/fixtures/c"])),
        "Found 2 candidate file(s); still looking for higher-signal source files"
    );
    let paths = owned(&["a", "x.snap", "b", "c", "d"]);
    assert_eq!(high_signal_paths(&paths, 3), owned(&["a", "b", "c"]));
    assert_eq!(display_paths(&paths, 2), owned(&["a", "x.snap"]));
    assert_eq!(search_result_note(&paths), "Found likely files: a, b, c (+2 more)");
    assert_eq!(search_result_note(&owned(&["a"])), "Found likely files: a");
    assert_eq!(
        snippet_result_note(&Vec::new()),
        "No snippets were read from the requested files"
    );
    assert_eq!(snippet_result_note(&paths), "Read snippets from: a, x.snap, b (+2 more)");
}
