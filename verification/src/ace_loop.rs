//! The loop that gathers project context for a prompt and has the enhanced prompt reviewed.
//!
//! The loop decides; whoever runs it asks the model, searches and reads, and hands back what came
//! of it. Each answer is one call of a method of [`AceLoop`], which returns what to report and
//! what to do next.
use vstd::prelude::*;
use crate::ace_notes::{
    ace_loop_progress, assessment_note_for_action, assessment_of, fallback_reason, law_loop_progress,
    limited_texts, loop_progress, no_echo, non_empty_limited, push_ace_loop_note, reason_text, search_note,
    search_result_note, snippet_note, snippet_result_note, with_note,
};
use crate::context_pack::{ContextPack, RelevantFileBlock};
use crate::paths::{relative_to, same_path};
use crate::preview::{Preview, PromptPilotPreview};
use crate::progress::{AceProgress, AceProgressStep, Progress};
use crate::relevant_files::{
    add_observed_relevant_file, contents_view, distinct_paths, file_views, files_grew,
    largest_confidence, law_merge, law_merge_adds, law_merge_confidence, law_merge_invents_nothing,
    law_snippets, is_backed, lemma_place, merge_relevant_files, merged, observed_file, paths_in,
    place_of, read_small_snippets, snippet_paths, snippet_targets, snippet_targets_of,
    snippet_views, snippets_upto, AceSnippetObservation, RelevantFile, Snippet,
};
use crate::retriever::{
    files_for_queries, match_count, retrieve_relevant_files_for_queries, FileMatch, MAX_HITS,
};
use crate::text::{
    blank, decimal, decimal_text, is_blank, lemma_texts_push, non_empty, same_text, texts, trim,
    trimmed, trimmed_each, white_space,
};

verus! {

// ---------------------------------------------------------------------------
// What the model says
// ---------------------------------------------------------------------------

/// What the conversation before the prompt says about it.
#[derive(Clone, Debug, PartialEq, Eq)]
pub struct AceConversationDistillation {
    pub likely_understanding: String,
    pub concise_summary: String,
    pub hard_constraints: Vec<String>,
    pub prior_decisions: Vec<String>,
    pub mentioned_paths: Vec<String>,
    pub search_hints: Vec<String>,
    pub uncertainties: Vec<String>,
}

impl AceConversationDistillation {
    /// Whether anything was found in the conversation.
    pub open spec fn has_context(self) -> bool {
        ||| self.hard_constraints@.len() > 0
        ||| self.prior_decisions@.len() > 0
        ||| self.mentioned_paths@.len() > 0
        ||| self.search_hints@.len() > 0
        ||| self.uncertainties@.len() > 0
    }
}

/// Whether anything was found in the conversation.
pub fn conversation_distillation_has_context(
    distillation: &AceConversationDistillation,
) -> (r: bool)
    ensures
        r == distillation.has_context(),
{
    !distillation.hard_constraints.is_empty() || !distillation.prior_decisions.is_empty()
        || !distillation.mentioned_paths.is_empty() || !distillation.search_hints.is_empty()
        || !distillation.uncertainties.is_empty()
}

/// The step that the model chose.
#[derive(Clone, Debug, PartialEq, Eq)]
pub struct AceAgentDecision {
    pub likely_understanding: String,
    pub action: String,
    pub reason: String,
    pub queries: Vec<String>,
    pub paths: Vec<String>,
    pub enhanced_prompt: String,
}

/// The model of an [`AceAgentDecision`].
#[verifier::ext_equal]
pub struct Decision {
    pub likely_understanding: Seq<char>,
    pub action: Seq<char>,
    pub reason: Seq<char>,
    pub queries: Seq<Seq<char>>,
    pub paths: Seq<Seq<char>>,
    pub enhanced_prompt: Seq<char>,
}

impl View for AceAgentDecision {
    type V = Decision;

    open spec fn view(&self) -> Decision {
        Decision {
            likely_understanding: self.likely_understanding@,
            action: self.action@,
            reason: self.reason@,
            queries: texts(self.queries@),
            paths: texts(self.paths@),
            enhanced_prompt: self.enhanced_prompt@,
        }
    }
}

/// What the model says of a draft.
#[derive(Clone, Debug, PartialEq, Eq)]
pub struct AceGuardrailReview {
    pub status: String,
    pub reason: String,
    pub likely_understanding: String,
    pub enhanced_prompt: String,
}

/// The model of an [`AceGuardrailReview`].
#[verifier::ext_equal]
pub struct Review {
    pub status: Seq<char>,
    pub reason: Seq<char>,
    pub likely_understanding: Seq<char>,
    pub enhanced_prompt: Seq<char>,
}

impl View for AceGuardrailReview {
    type V = Review;

    open spec fn view(&self) -> Review {
        Review {
            status: self.status@,
            reason: self.reason@,
            likely_understanding: self.likely_understanding@,
            enhanced_prompt: self.enhanced_prompt@,
        }
    }
}

/// The answer to a request for an enhancement.
#[derive(Clone, Debug, PartialEq, Eq)]
pub struct EnhanceReply {
    pub likely_understanding: String,
    pub enhanced_prompt: String,
}

/// The preview that an answer gives of a prompt.
pub open spec fn preview_of_reply(prompt: Seq<char>, reply: EnhanceReply) -> Preview {
    Preview {
        original_prompt: prompt,
        understanding: reply.likely_understanding@,
        enhanced_prompt: reply.enhanced_prompt@,
    }
}

/// The preview that an answer gives of a prompt.
pub fn preview_from_reply(prompt: String, reply: EnhanceReply) -> (r: PromptPilotPreview)
    ensures
        r@ == preview_of_reply(prompt@, reply),
{
    PromptPilotPreview::new(prompt, reply.likely_understanding, reply.enhanced_prompt)
}

/// Why there is no answer of the model.
#[derive(Clone, Debug, PartialEq, Eq)]
pub enum AceFailure {
    /// The request failed, with this message.
    Request(String),
    /// The answer does not have the expected form, with this message.
    Response(String),
}

impl AceFailure {
    /// The message, with what precedes it where an answer came.
    pub open spec fn text(self, heading: Seq<char>) -> Seq<char> {
        match self {
            AceFailure::Request(message) => message@,
            AceFailure::Response(message) => heading + message@,
        }
    }

    /// The message, with what precedes it where an answer came.
    pub fn message(self, heading: &str) -> (r: String)
        ensures
            r@ == self.text(heading@),
    {
        match self {
            AceFailure::Request(message) => message,
            AceFailure::Response(message) => {
                let mut out = heading.to_owned();
                out.append(message.as_str());
                out
            },
        }
    }
}

/// What precedes the message about a distillation without the expected form.
pub const CONVERSATION_RESPONSE_INVALID: &'static str = "PromptPilot ACE conversation response was invalid: ";

/// What precedes the message about a step without the expected form.
pub const AGENT_RESPONSE_INVALID: &'static str = "PromptPilot ACE agent response was invalid: ";

/// What precedes the message about a review without the expected form.
pub const GUARDRAIL_RESPONSE_INVALID: &'static str = "PromptPilot ACE guardrail response was invalid: ";

/// The model of an answer about the next step.
pub open spec fn decision_view(decision: Result<AceAgentDecision, AceFailure>) -> Result<
    Decision,
    Seq<char>,
> {
    match decision {
        Ok(decision) => Ok(decision@),
        Err(failure) => Err(failure.text(AGENT_RESPONSE_INVALID@)),
    }
}

/// The model of an answer about a draft.
pub open spec fn review_view(review: Result<AceGuardrailReview, AceFailure>) -> Result<
    Review,
    Seq<char>,
> {
    match review {
        Ok(review) => Ok(review@),
        Err(failure) => Err(failure.text(GUARDRAIL_RESPONSE_INVALID@)),
    }
}

/// The model of an answer with a draft.
pub open spec fn reply_view(reply: Result<EnhanceReply, String>) -> Result<
    EnhanceReply,
    Seq<char>,
> {
    match reply {
        Ok(reply) => Ok(reply),
        Err(message) => Err(message@),
    }
}

/// What a step has shown.
#[derive(Clone, Debug, PartialEq, Eq)]
pub struct AceAgentObservation {
    pub action: String,
    pub summary: String,
    pub paths: Vec<String>,
    pub snippets: Vec<AceSnippetObservation>,
}

/// The model of an [`AceAgentObservation`].
#[verifier::ext_equal]
pub struct Observation {
    pub action: Seq<char>,
    pub summary: Seq<char>,
    pub paths: Seq<Seq<char>>,
    pub snippets: Seq<Snippet>,
}

impl View for AceAgentObservation {
    type V = Observation;

    open spec fn view(&self) -> Observation {
        Observation {
            action: self.action@,
            summary: self.summary@,
            paths: texts(self.paths@),
            snippets: snippet_views(self.snippets@),
        }
    }
}

/// The models of a list of observations.
pub open spec fn observation_views(observations: Seq<AceAgentObservation>) -> Seq<Observation> {
    Seq::new(observations.len(), |i: int| observations[i]@)
}

// ---------------------------------------------------------------------------
// The review of a draft
// ---------------------------------------------------------------------------

/// `text` without white space around it, or `fallback` where nothing is left.
pub open spec fn trimmed_or(text: Seq<char>, fallback: Seq<char>) -> Seq<char> {
    if is_blank(text) {
        fallback
    } else {
        trimmed(text)
    }
}

fn trim_or(text: &str, fallback: &str) -> (r: String)
    ensures
        r@ == trimmed_or(text@, fallback@),
{
    if blank(text) {
        fallback.to_owned()
    } else {
        trim(text).to_owned()
    }
}

/// The draft as the review leaves it.
pub open spec fn reviewed_preview(preview: Preview, review: Review) -> Preview {
    Preview {
        original_prompt: preview.original_prompt,
        understanding: trimmed_or(review.likely_understanding, preview.understanding),
        enhanced_prompt: trimmed_or(review.enhanced_prompt, preview.enhanced_prompt),
    }
}

/// What comes of a draft that was reviewed.
pub open spec fn reviewed(preview: Preview, review: Review) -> Result<Preview, Seq<char>> {
    if review.status == "pass"@ || review.status == "repair"@ {
        if is_blank(reviewed_preview(preview, review).enhanced_prompt) {
            Err("PromptPilot ACE guardrail review returned an empty prompt"@)
        } else {
            Ok(reviewed_preview(preview, review))
        }
    } else if review.status == "fail"@ {
        Err(
            "PromptPilot ACE skipped enhancement because semantic guardrails failed: "@
                + reason_text(review.reason),
        )
    } else {
        Err("PromptPilot ACE guardrail review returned unknown status `"@ + review.status + "`"@)
    }
}

/// The model of a result with a preview.
pub open spec fn result_view(result: Result<PromptPilotPreview, String>) -> Result<
    Preview,
    Seq<char>,
> {
    match result {
        Ok(preview) => Ok(preview@),
        Err(message) => Err(message@),
    }
}

/// What comes of a draft that was reviewed.
pub fn review_prompt_pilot_ace_guardrails(
    preview: &PromptPilotPreview,
    review: &AceGuardrailReview,
) -> (r: Result<PromptPilotPreview, String>)
    ensures
        result_view(r) == reviewed(preview@, review@),
{
    let status = review.status.as_str();
    if same_text(status, "pass") || same_text(status, "repair") {
        let out = PromptPilotPreview::new(
            preview.original_prompt.clone(),
            trim_or(review.likely_understanding.as_str(), preview.understanding.as_str()),
            trim_or(review.enhanced_prompt.as_str(), preview.enhanced_prompt.as_str()),
        );
        if blank(out.enhanced_prompt.as_str()) {
            return Err("PromptPilot ACE guardrail review returned an empty prompt".to_owned());
        }
        return Ok(out);
    }
    if same_text(status, "fail") {
        let mut message =
            "PromptPilot ACE skipped enhancement because semantic guardrails failed: ".to_owned();
        message.append(fallback_reason(review.reason.as_str()).as_str());
        return Err(message);
    }
    let mut message = "PromptPilot ACE guardrail review returned unknown status `".to_owned();
    message.append(status);
    message.append("`");
    Err(message)
}

/// A review never changes the prompt of the user, and what it lets through is not blank.
pub proof fn law_reviewed(preview: Preview, review: Review)
    ensures
        reviewed(preview, review) matches Ok(out) ==> out.original_prompt
            == preview.original_prompt && !is_blank(out.enhanced_prompt),
        reviewed(preview, review) is Ok ==> review.status == "pass"@ || review.status
            == "repair"@,
{
}

// ---------------------------------------------------------------------------
// The state of the loop
// ---------------------------------------------------------------------------

/// What the loop waits for.
pub enum AcePhase {
    /// What the conversation says.
    Distilling,
    /// The next step, chosen by the model.
    Deciding,
    /// The matches of the queries.
    Searching { reason: String, queries: Vec<String> },
    /// What the files hold.
    Reading { reason: String, targets: Vec<String> },
    /// A draft made of what is known.
    Drafting,
    /// The review of a draft.
    Reviewing { preview: PromptPilotPreview },
    /// Nothing more.
    Finished,
}

/// The model of an [`AcePhase`].
pub enum Phase {
    Distilling,
    Deciding,
    Searching { reason: Seq<char>, queries: Seq<Seq<char>> },
    Reading { reason: Seq<char>, targets: Seq<Seq<char>> },
    Drafting,
    Reviewing { preview: Preview },
    Finished,
}

impl View for AcePhase {
    type V = Phase;

    open spec fn view(&self) -> Phase {
        match self {
            AcePhase::Distilling => Phase::Distilling,
            AcePhase::Deciding => Phase::Deciding,
            AcePhase::Searching { reason, queries } => Phase::Searching {
                reason: reason@,
                queries: texts(queries@),
            },
            AcePhase::Reading { reason, targets } => Phase::Reading {
                reason: reason@,
                targets: texts(targets@),
            },
            AcePhase::Drafting => Phase::Drafting,
            AcePhase::Reviewing { preview } => Phase::Reviewing { preview: preview@ },
            AcePhase::Finished => Phase::Finished,
        }
    }
}

/// The loop between two answers.
pub struct AceLoop {
    pub prompt: String,
    pub max_iterations: usize,
    pub iteration: usize,
    pub context_pack: ContextPack,
    pub observations: Vec<AceAgentObservation>,
    pub transcript: Vec<String>,
    pub conversation_distillation: Option<AceConversationDistillation>,
    pub phase: AcePhase,
}

/// The model of an [`AceLoop`].
#[verifier::ext_equal]
pub struct LoopState {
    pub prompt: Seq<char>,
    pub max_iterations: nat,
    pub iteration: nat,
    pub repo_root: Seq<char>,
    pub files: Seq<RelevantFile>,
    pub observations: Seq<Observation>,
    pub transcript: Seq<Seq<char>>,
    pub conversation_distillation: Option<AceConversationDistillation>,
    pub phase: Phase,
}

impl View for AceLoop {
    type V = LoopState;

    open spec fn view(&self) -> LoopState {
        LoopState {
            prompt: self.prompt@,
            max_iterations: self.max_iterations as nat,
            iteration: self.iteration as nat,
            repo_root: self.context_pack.project.repo_root@,
            files: file_views(self.context_pack.relevant_files@),
            observations: observation_views(self.observations@),
            transcript: texts(self.transcript@),
            conversation_distillation: self.conversation_distillation,
            phase: self.phase@,
        }
    }
}

/// Everything but the relevant files is the same in both packs.
pub open spec fn same_pack_but_files(a: ContextPack, b: ContextPack) -> bool {
    &&& a.intent == b.intent
    &&& a.project == b.project
    &&& a.project_docs == b.project_docs
    &&& a.rules == b.rules
    &&& a.git == b.git
    &&& a.warnings == b.warnings
    &&& a.budget == b.budget
}

/// What to do next.
pub enum AceAction {
    /// Ask the model what this conversation says about the prompt.
    Distill { conversation_context: String },
    /// Ask the model for the next step; in the last round it must finish.
    Ask { force_finish: bool },
    /// Search for these queries.
    Search { queries: Vec<String> },
    /// Read these files.
    Read { targets: Vec<String> },
    /// Ask the model for a draft made of what is known.
    Draft,
    /// Ask the model to review the draft that the loop holds.
    Review,
    /// Stop with this result.
    Finish { result: Result<PromptPilotPreview, String> },
}

/// The model of an [`AceAction`].
pub enum LoopAction {
    Distill { conversation_context: Seq<char> },
    Ask { force_finish: bool },
    Search { queries: Seq<Seq<char>> },
    Read { targets: Seq<Seq<char>> },
    Draft,
    Review,
    Finish { result: Result<Preview, Seq<char>> },
}

impl View for AceAction {
    type V = LoopAction;

    open spec fn view(&self) -> LoopAction {
        match self {
            AceAction::Distill { conversation_context } => LoopAction::Distill {
                conversation_context: conversation_context@,
            },
            AceAction::Ask { force_finish } => LoopAction::Ask { force_finish: *force_finish },
            AceAction::Search { queries } => LoopAction::Search { queries: texts(queries@) },
            AceAction::Read { targets } => LoopAction::Read { targets: texts(targets@) },
            AceAction::Draft => LoopAction::Draft,
            AceAction::Review => LoopAction::Review,
            AceAction::Finish { result } => LoopAction::Finish { result: result_view(*result) },
        }
    }
}

/// What to report, in this order, and then to do.
pub struct AceStep {
    pub reports: Vec<AceProgress>,
    pub action: AceAction,
}

/// The models of a list of reports.
pub open spec fn report_views(reports: Seq<AceProgress>) -> Seq<Progress> {
    Seq::new(reports.len(), |i: int| reports[i]@)
}

/// What to report, in this order, and then to do.
#[verifier::ext_equal]
pub struct LoopStep {
    pub reports: Seq<Progress>,
    pub action: LoopAction,
}

impl View for AceStep {
    type V = LoopStep;

    open spec fn view(&self) -> LoopStep {
        LoopStep { reports: report_views(self.reports@), action: self.action@ }
    }
}

// ---------------------------------------------------------------------------
// The course of the loop
// ---------------------------------------------------------------------------

/// The report while context is gathered.
pub open spec fn generating(transcript: Seq<Seq<char>>, note: Option<Seq<char>>) -> Progress {
    loop_progress(AceProgressStep::GeneratingEnhancedPrompt, transcript, note)
}

/// The report while a draft is reviewed.
pub open spec fn reviewing(transcript: Seq<Seq<char>>) -> Progress {
    loop_progress(
        AceProgressStep::ReviewingGuardrails,
        transcript,
        Some("Checking the draft before preview"@),
    )
}

/// The note at the start of a round.
pub open spec fn round_note(iteration: nat, max_iterations: nat) -> Seq<char> {
    "Checking whether more context is needed ("@ + decimal_text(iteration + 1) + "/"@
        + decimal_text(max_iterations) + ")"@
}

/// The start of a round: the model is asked for a step while rounds are left, else for a draft.
pub open spec fn round(s: LoopState) -> (LoopState, LoopStep) {
    if s.iteration < s.max_iterations {
        (
            LoopState { phase: Phase::Deciding, ..s },
            LoopStep {
                reports: seq![
                    generating(s.transcript, Some(round_note(s.iteration, s.max_iterations))),
                ],
                action: LoopAction::Ask { force_finish: s.iteration + 1 == s.max_iterations },
            },
        )
    } else {
        (
            LoopState { phase: Phase::Drafting, ..s },
            LoopStep {
                reports: seq![
                    generating(
                        s.transcript,
                        Some("Reached iteration limit; drafting from collected context"@),
                    ),
                ],
                action: LoopAction::Draft,
            },
        )
    }
}

/// The round after one in which something was observed.
pub open spec fn next_round(s: LoopState, observation: Observation, note: Seq<char>) -> (
    LoopState,
    LoopStep,
) {
    let transcript = with_note(s.transcript, note);
    let (after, step) = round(
        LoopState {
            observations: s.observations.push(observation),
            transcript,
            iteration: s.iteration + 1,
            ..s
        },
    );
    (
        after,
        LoopStep {
            reports: seq![generating(transcript, None)] + step.reports,
            action: step.action,
        },
    )
}

/// The end of the loop.
pub open spec fn finished(
    s: LoopState,
    reports: Seq<Progress>,
    result: Result<Preview, Seq<char>>,
) -> (LoopState, LoopStep) {
    (
        LoopState { phase: Phase::Finished, ..s },
        LoopStep { reports, action: LoopAction::Finish { result } },
    )
}

/// The start of the loop.
pub open spec fn started(
    prompt: Seq<char>,
    max_iterations: nat,
    repo_root: Seq<char>,
    files: Seq<RelevantFile>,
    conversation_context: Option<Seq<char>>,
) -> (LoopState, LoopStep) {
    let s = LoopState {
        prompt,
        max_iterations,
        iteration: 0,
        repo_root,
        files,
        observations: Seq::empty(),
        transcript: with_note(
            Seq::empty(),
            "Collected project context from docs, rules, manifests, and git state"@,
        ),
        conversation_distillation: None,
        phase: Phase::Distilling,
    };
    match conversation_context {
        Some(conversation_context) => (
            s,
            LoopStep {
                reports: seq![
                    generating(s.transcript, Some("Distilling conversation context"@)),
                ],
                action: LoopAction::Distill { conversation_context },
            },
        ),
        None => round(s),
    }
}

/// An answer that the loop waits for.
pub enum Answer {
    /// What the conversation says, where that could be found out.
    Distilled { distillation: Option<AceConversationDistillation> },
    /// The next step.
    Decided { decision: Result<Decision, Seq<char>> },
    /// The matches of each query.
    Searched { searches: Seq<Vec<FileMatch>> },
    /// What each file holds, where it could be read.
    Read { contents: Seq<Option<Seq<u8>>> },
    /// A draft.
    Drafted { reply: Result<EnhanceReply, Seq<char>> },
    /// The review of the draft.
    Reviewed { review: Result<Review, Seq<char>> },
}

/// Whether the loop waits for this answer.
pub open spec fn fits(s: LoopState, answer: Answer) -> bool {
    match (s.phase, answer) {
        (Phase::Distilling, Answer::Distilled { .. }) => true,
        (Phase::Deciding, Answer::Decided { .. }) => true,
        (Phase::Searching { queries, .. }, Answer::Searched { searches }) => searches.len()
            == queries.len() && match_count(searches) <= MAX_HITS,
        (Phase::Reading { targets, .. }, Answer::Read { contents }) => contents.len()
            == targets.len(),
        (Phase::Drafting, Answer::Drafted { .. }) => true,
        (Phase::Reviewing { .. }, Answer::Reviewed { .. }) => true,
        _ => false,
    }
}

/// The loop once it is known what the conversation says.
pub open spec fn after_distillation(
    s: LoopState,
    distillation: Option<AceConversationDistillation>,
) -> (LoopState, LoopStep) {
    let note = match distillation {
        Some(d) => if d.has_context() {
            "Extracted context from the conversation"@
        } else {
            "No additional conversation context was needed"@
        },
        None => "Could not extract conversation context; continuing with project context"@,
    };
    round(
        LoopState {
            transcript: with_note(s.transcript, note),
            conversation_distillation: distillation,
            ..s
        },
    )
}

/// The draft that the model finishes with.
pub open spec fn drafted_preview(s: LoopState, decision: Decision) -> Preview {
    Preview {
        original_prompt: s.prompt,
        understanding: trimmed_or(decision.likely_understanding, s.prompt),
        enhanced_prompt: trimmed(decision.enhanced_prompt),
    }
}

/// The start of the review of a draft, after these reports.
pub open spec fn review_started(s: LoopState, reports: Seq<Progress>, preview: Preview) -> (
    LoopState,
    LoopStep,
) {
    (
        LoopState { phase: Phase::Reviewing { preview }, ..s },
        LoopStep { reports: reports.push(reviewing(s.transcript)), action: LoopAction::Review },
    )
}

/// The loop once the model has chosen to finish.
pub open spec fn after_finish(s: LoopState, decision: Decision) -> (LoopState, LoopStep) {
    let s = LoopState { transcript: with_note(s.transcript, "Drafted an enhanced prompt"@), ..s };
    let reports = seq![generating(s.transcript, Some("Building final prompt draft"@))];
    if is_blank(decision.enhanced_prompt) {
        finished(s, reports, Err("PromptPilot ACE returned an empty enhanced prompt"@))
    } else {
        review_started(s, reports, drafted_preview(s, decision))
    }
}

/// What is observed where a search is asked for without a query.
pub open spec fn no_query_observation() -> Observation {
    Observation {
        action: "search_files"@,
        summary: "Model requested file search without queries."@,
        paths: Seq::empty(),
        snippets: Seq::empty(),
    }
}

/// The loop once the model has chosen to search.
pub open spec fn after_search_choice(s: LoopState, decision: Decision) -> (LoopState, LoopStep) {
    let queries = limited_texts(decision.queries, 6);
    if queries.len() == 0 {
        next_round(
            s,
            no_query_observation(),
            "Skipped file search because no query was available"@,
        )
    } else {
        let transcript = with_note(s.transcript, "Searching the codebase for relevant files"@);
        (
            LoopState {
                transcript,
                phase: Phase::Searching { reason: decision.reason, queries },
                ..s
            },
            LoopStep {
                reports: seq![generating(transcript, Some("Searching project files"@))],
                action: LoopAction::Search { queries },
            },
        )
    }
}

/// The loop once the model has chosen to read files.
pub open spec fn after_read_choice(s: LoopState, decision: Decision) -> (LoopState, LoopStep) {
    let targets = snippet_targets_of(s.repo_root, limited_texts(decision.paths, 5));
    let transcript = with_note(s.transcript, "Reading snippets from likely files"@);
    (
        LoopState {
            transcript,
            phase: Phase::Reading { reason: decision.reason, targets },
            ..s
        },
        LoopStep {
            reports: seq![generating(transcript, Some("Reading source snippets"@))],
            action: LoopAction::Read { targets },
        },
    )
}

/// The loop once the model has chosen a step.
pub open spec fn after_decision(s: LoopState, decision: Decision) -> (LoopState, LoopStep) {
    let noted = LoopState {
        transcript: with_note(s.transcript, assessment_of(decision.action)),
        ..s
    };
    if decision.action == "finish"@ {
        after_finish(noted, decision)
    } else if decision.action == "search_files"@ {
        after_search_choice(noted, decision)
    } else if decision.action == "read_small_snippets"@ {
        after_read_choice(noted, decision)
    } else {
        finished(
            noted,
            Seq::empty(),
            Err("PromptPilot ACE returned unknown action `"@ + decision.action + "`"@),
        )
    }
}

/// The loop once the matches of the queries are known.
pub open spec fn after_search(
    s: LoopState,
    reason: Seq<char>,
    queries: Seq<Seq<char>>,
    searches: Seq<Vec<FileMatch>>,
) -> (LoopState, LoopStep) {
    let found = files_for_queries(s.repo_root, queries, searches);
    next_round(
        LoopState { files: merged(s.files, found), ..s },
        Observation {
            action: "search_files"@,
            summary: reason_text(reason),
            paths: paths_in(found),
            snippets: Seq::empty(),
        },
        search_note(paths_in(found)),
    )
}

/// What is known of the files that snippets were read from.
pub open spec fn observed_files(paths: Seq<Seq<char>>) -> Seq<RelevantFile> {
    Seq::new(paths.len(), |i: int| observed_file(paths[i]))
}

/// The loop once the files are read.
pub open spec fn after_read(
    s: LoopState,
    reason: Seq<char>,
    targets: Seq<Seq<char>>,
    contents: Seq<Option<Seq<u8>>>,
) -> (LoopState, LoopStep) {
    let snippets = snippets_upto(s.repo_root, targets, contents, targets.len() as int);
    let paths = snippet_paths(snippets);
    next_round(
        LoopState { files: merged(s.files, observed_files(paths)), ..s },
        Observation {
            action: "read_small_snippets"@,
            summary: trimmed(reason),
            paths,
            snippets,
        },
        snippet_note(paths),
    )
}

/// The loop after an answer that it waits for.
pub open spec fn after(s: LoopState, answer: Answer) -> (LoopState, LoopStep) {
    match (s.phase, answer) {
        (Phase::Distilling, Answer::Distilled { distillation }) => after_distillation(
            s,
            distillation,
        ),
        (Phase::Deciding, Answer::Decided { decision: Ok(decision) }) => after_decision(
            s,
            decision,
        ),
        (Phase::Deciding, Answer::Decided { decision: Err(message) }) => finished(
            s,
            Seq::empty(),
            Err(message),
        ),
        (Phase::Searching { reason, queries }, Answer::Searched { searches }) => after_search(
            s,
            reason,
            queries,
            searches,
        ),
        (Phase::Reading { reason, targets }, Answer::Read { contents }) => after_read(
            s,
            reason,
            targets,
            contents,
        ),
        (Phase::Drafting, Answer::Drafted { reply: Ok(reply) }) => review_started(
            s,
            Seq::empty(),
            preview_of_reply(s.prompt, reply),
        ),
        (Phase::Drafting, Answer::Drafted { reply: Err(message) }) => finished(
            s,
            Seq::empty(),
            Err(message),
        ),
        (Phase::Reviewing { preview }, Answer::Reviewed { review: Ok(review) }) => finished(
            s,
            Seq::empty(),
            reviewed(preview, review),
        ),
        (Phase::Reviewing { .. }, Answer::Reviewed { review: Err(message) }) => finished(
            s,
            Seq::empty(),
            Err(message),
        ),
        _ => (s, LoopStep { reports: Seq::empty(), action: LoopAction::Draft }),
    }
}

// ---------------------------------------------------------------------------
// Laws of the loop
// ---------------------------------------------------------------------------

/// What holds of the loop at all times.
pub open spec fn loop_wf(s: LoopState) -> bool {
    &&& s.iteration <= s.max_iterations
    &&& no_echo(s.transcript)
    &&& match s.phase {
        Phase::Distilling => s.iteration == 0,
        Phase::Deciding | Phase::Searching { .. } | Phase::Reading { .. } => s.iteration
            < s.max_iterations,
        Phase::Drafting => s.iteration == s.max_iterations,
        Phase::Reviewing { preview } => preview.original_prompt == s.prompt,
        Phase::Finished => true,
    }
}

/// How many answers the loop can still wait for at most.
pub open spec fn answers_left(s: LoopState) -> int {
    let rounds = s.max_iterations - s.iteration;
    match s.phase {
        Phase::Distilling => 2 * rounds + 3,
        Phase::Deciding => 2 * rounds + 2,
        Phase::Searching { .. } | Phase::Reading { .. } => 2 * rounds + 1,
        Phase::Drafting => 2,
        Phase::Reviewing { .. } => 1,
        Phase::Finished => 0,
    }
}

/// What the loop asks for is what it waits for.
pub open spec fn asks_for_what_it_waits(s: LoopState, step: LoopStep) -> bool {
    match step.action {
        LoopAction::Distill { .. } => s.phase == Phase::Distilling,
        LoopAction::Ask { force_finish } => s.phase == Phase::Deciding && force_finish == (
        s.iteration + 1 == s.max_iterations),
        LoopAction::Search { queries } => s.phase matches Phase::Searching { queries: q, .. } && q
            == queries,
        LoopAction::Read { targets } => s.phase matches Phase::Reading { targets: t, .. } && t
            == targets,
        LoopAction::Draft => s.phase == Phase::Drafting,
        LoopAction::Review => s.phase is Reviewing,
        LoopAction::Finish { .. } => s.phase == Phase::Finished,
    }
}

proof fn lemma_with_note(transcript: Seq<Seq<char>>, note: Seq<char>)
    requires
        no_echo(transcript),
    ensures
        no_echo(with_note(transcript, note)),
{
}

proof fn lemma_next_round(s: LoopState, observation: Observation, note: Seq<char>)
    requires
        no_echo(s.transcript),
        s.iteration < s.max_iterations,
    ensures
        ({
            let (t, step) = next_round(s, observation, note);
            &&& loop_wf(t)
            &&& answers_left(t) <= 2 * (s.max_iterations - s.iteration)
            &&& asks_for_what_it_waits(t, step)
            &&& step.action !is Finish
            &&& t.prompt == s.prompt && t.files == s.files && t.max_iterations == s.max_iterations
            &&& t.conversation_distillation == s.conversation_distillation
        }),
{
    lemma_with_note(s.transcript, note);
}

/// The start of the loop: its state is one of those that hold at all times, and at most two
/// answers for each round and three more are waited for.
pub proof fn law_started(
    prompt: Seq<char>,
    max_iterations: nat,
    repo_root: Seq<char>,
    files: Seq<RelevantFile>,
    conversation_context: Option<Seq<char>>,
)
    ensures
        ({
            let (s, step) = started(prompt, max_iterations, repo_root, files, conversation_context);
            &&& loop_wf(s)
            &&& asks_for_what_it_waits(s, step)
            &&& answers_left(s) <= 2 * max_iterations + 3
            &&& s.prompt == prompt
            &&& s.files == files
        }),
{
}

/// Each answer that the loop waits for brings it nearer to its end, so that it asks at most for
/// as many steps as there are rounds. On the way the prompt stays the same, no relevant file is
/// lost, and the transcript says nothing twice in a row. When the loop ends well, it ends with a
/// preview of that prompt that is not blank and that a review has let through.
pub proof fn law_loop(s: LoopState, answer: Answer)
    requires
        loop_wf(s),
        fits(s, answer),
    ensures
        ({
            let (t, step) = after(s, answer);
            &&& loop_wf(t)
            &&& asks_for_what_it_waits(t, step)
            &&& 0 <= answers_left(t) < answers_left(s)
            &&& t.prompt == s.prompt
            &&& files_grew(s.files, t.files)
            &&& distinct_paths(s.files) ==> distinct_paths(t.files)
            &&& step.action matches LoopAction::Finish { result: Ok(preview) } ==> s.phase is Reviewing
                && preview.original_prompt == s.prompt && !is_blank(preview.enhanced_prompt)
        }),
{
    match (s.phase, answer) {
        (Phase::Distilling, Answer::Distilled { distillation }) => {
            assert(files_grew(s.files, s.files));
        },
        (Phase::Deciding, Answer::Decided { decision: Ok(decision) }) => {
            let noted = LoopState {
                transcript: with_note(s.transcript, assessment_of(decision.action)),
                ..s
            };
            assert(files_grew(s.files, s.files));
            lemma_with_note(s.transcript, assessment_of(decision.action));
            lemma_with_note(noted.transcript, "Drafted an enhanced prompt"@);
            lemma_with_note(noted.transcript, "Searching the codebase for relevant files"@);
            lemma_with_note(noted.transcript, "Reading snippets from likely files"@);
            lemma_next_round(
                noted,
                no_query_observation(),
                "Skipped file search because no query was available"@,
            );
        },
        (Phase::Searching { reason, queries }, Answer::Searched { searches }) => {
            let found = files_for_queries(s.repo_root, queries, searches);
            law_merge(s.files, found);
            lemma_next_round(
                LoopState { files: merged(s.files, found), ..s },
                Observation {
                    action: "search_files"@,
                    summary: reason_text(reason),
                    paths: paths_in(found),
                    snippets: Seq::empty(),
                },
                search_note(paths_in(found)),
            );
        },
        (Phase::Reading { reason, targets }, Answer::Read { contents }) => {
            let snippets = snippets_upto(s.repo_root, targets, contents, targets.len() as int);
            let paths = snippet_paths(snippets);
            law_merge(s.files, observed_files(paths));
            lemma_next_round(
                LoopState { files: merged(s.files, observed_files(paths)), ..s },
                Observation {
                    action: "read_small_snippets"@,
                    summary: trimmed(reason),
                    paths,
                    snippets,
                },
                snippet_note(paths),
            );
        },
        _ => {
            assert(files_grew(s.files, s.files));
        },
    }
}

/// Whether the loop waits for each of these answers in turn.
pub open spec fn fits_all(s: LoopState, answers: Seq<Answer>) -> bool
    decreases answers.len(),
{
    answers.len() > 0 ==> fits(s, answers[0]) && fits_all(
        after(s, answers[0]).0,
        answers.drop_first(),
    )
}

/// How many of the answers choose a step.
pub open spec fn steps_chosen(answers: Seq<Answer>) -> nat
    decreases answers.len(),
{
    if answers.len() == 0 {
        0
    } else {
        steps_chosen(answers.drop_first()) + if answers[0] is Decided {
            1nat
        } else {
            0
        }
    }
}

/// How many steps can still be chosen.
pub open spec fn steps_left(s: LoopState) -> int {
    match s.phase {
        Phase::Distilling | Phase::Deciding => s.max_iterations - s.iteration,
        Phase::Searching { .. } | Phase::Reading { .. } => s.max_iterations - s.iteration - 1,
        _ => 0,
    }
}

/// A run of the loop ends: from any state it takes at most as many answers as are left, and the
/// model chooses at most as many steps as there are rounds left.
pub proof fn law_run_ends(s: LoopState, answers: Seq<Answer>)
    requires
        loop_wf(s),
        fits_all(s, answers),
    ensures
        answers.len() <= answers_left(s),
        steps_chosen(answers) <= steps_left(s),
    decreases answers.len(),
{
    if answers.len() > 0 {
        let t = after(s, answers[0]).0;
        law_loop(s, answers[0]);
        law_run_ends(t, answers.drop_first());
    }
}

/// A search adds what it found, whatever was known before: each file that the queries found is
/// among the relevant files, with at least its confidence and with its evidence, and what was there
/// stays at its place. Where no path stood there twice, the confidence of each file is the largest
/// of what was known and what was found. Nothing comes in that was neither there nor found, and the
/// next step is shown the paths that were found.
#[verifier::spinoff_prover]
pub proof fn law_search_adds_what_it_found(
    s: LoopState,
    reason: Seq<char>,
    queries: Seq<Seq<char>>,
    searches: Seq<Vec<FileMatch>>,
)
    requires
        s.phase == (Phase::Searching { reason, queries }),
        searches.len() == queries.len(),
    ensures
        ({
            let found = files_for_queries(s.repo_root, queries, searches);
            let (t, step) = after(s, (Answer::Searched { searches }));
            &&& forall|j: int|
                0 <= j < found.len() ==> ({
                    let f = #[trigger] found[j];
                    let k = place_of(t.files, f.path);
                    &&& 0 <= k < t.files.len()
                    &&& same_path(t.files[k].path, f.path)
                    &&& f.confidence <= t.files[k].confidence
                    &&& forall|i: int|
                        0 <= i < f.evidence.len() ==> t.files[k].evidence.contains(
                            #[trigger] f.evidence[i],
                        )
                })
            &&& forall|i: int|
                0 <= i < s.files.len() ==> i < t.files.len() && (#[trigger] t.files[i]).path
                    == s.files[i].path && t.files[i].reason == s.files[i].reason
                    && s.files[i].confidence <= t.files[i].confidence
                    && s.files[i].evidence.is_prefix_of(t.files[i].evidence)
            &&& distinct_paths(s.files) ==> forall|k: int|
                0 <= k < t.files.len() ==> Some((#[trigger] t.files[k]).confidence)
                    == largest_confidence(s.files + found, t.files[k].path)
            &&& forall|k: int|
                0 <= k < t.files.len() ==> is_backed(#[trigger] t.files[k], s.files + found)
            &&& t.observations.len() == s.observations.len() + 1
            &&& s.observations.is_prefix_of(t.observations)
            &&& t.observations.last().action == "search_files"@
            &&& t.observations.last().snippets.len() == 0
            &&& t.observations.last().paths.len() == found.len()
            &&& forall|j: int|
                0 <= j < found.len() ==> #[trigger] t.observations.last().paths[j]
                    == found[j].path
            &&& !is_blank(reason) && trimmed(reason).len() <= 220
                ==> t.observations.last().summary == trimmed(reason)
            &&& t.iteration == s.iteration + 1
            &&& s.transcript.is_prefix_of(t.transcript)
            &&& t.repo_root == s.repo_root && t.max_iterations == s.max_iterations
            &&& t.conversation_distillation == s.conversation_distillation
            &&& step.action == (if s.iteration + 1 < s.max_iterations {
                LoopAction::Ask { force_finish: s.iteration + 2 == s.max_iterations }
            } else {
                LoopAction::Draft
            })
        }),
{
    let found = files_for_queries(s.repo_root, queries, searches);
    let (t, step) = after(s, (Answer::Searched { searches }));
    law_merge(s.files, found);
    law_merge_confidence(s.files, found, Seq::empty());
    assert forall|j: int| 0 <= j < found.len() implies ({
        let f = #[trigger] found[j];
        let k = place_of(t.files, f.path);
        &&& 0 <= k < t.files.len()
        &&& same_path(t.files[k].path, f.path)
        &&& f.confidence <= t.files[k].confidence
        &&& forall|i: int|
            0 <= i < f.evidence.len() ==> t.files[k].evidence.contains(#[trigger] f.evidence[i])
    }) by {
        law_merge_adds(s.files, found, j);
    }
    assert forall|k: int| 0 <= k < t.files.len() implies is_backed(
        #[trigger] t.files[k],
        s.files + found,
    ) by {
        law_merge_invents_nothing(s.files, found, k);
    }
}

/// Reading adds what was read, whatever was known before: each file that could be read and is a
/// text is among the relevant files, with at least the confidence of a file that was read, and the
/// next step is shown its text. What was known stays at its place.
#[verifier::spinoff_prover]
pub proof fn law_reading_adds_what_was_read(
    s: LoopState,
    reason: Seq<char>,
    targets: Seq<Seq<char>>,
    contents: Seq<Option<Seq<u8>>>,
)
    requires
        s.phase == (Phase::Reading { reason, targets }),
        contents.len() == targets.len(),
    ensures
        ({
            let (t, step) = after(s, (Answer::Read { contents }));
            let shown = t.observations.last();
            &&& t.observations.len() == s.observations.len() + 1
            &&& s.observations.is_prefix_of(t.observations)
            &&& shown.action == "read_small_snippets"@
            &&& shown.summary == trimmed(reason)
            &&& shown.paths.len() == shown.snippets.len()
            &&& forall|k: int|
                0 <= k < shown.snippets.len() ==> #[trigger] shown.paths[k]
                    == shown.snippets[k].path
            &&& forall|i: int|
                0 <= i < targets.len() && (#[trigger] contents[i]) is Some
                    && !contents[i]->Some_0.contains(0u8) ==> exists|k: int|
                    0 <= k < shown.snippets.len() && (#[trigger] shown.snippets[k]).path
                        == relative_to(targets[i], s.repo_root) && shown.snippets[k].truncated == (
                    contents[i]->Some_0.len() > 2000) && (contents[i]->Some_0.len() <= 2000
                        ==> shown.snippets[k].content == trimmed(
                        crate::bytes::lossy_text(contents[i]->Some_0),
                    ))
            &&& forall|k: int|
                0 <= k < shown.snippets.len() ==> ({
                    let m = place_of(t.files, (#[trigger] shown.snippets[k]).path);
                    &&& 0 <= m < t.files.len()
                    &&& same_path(t.files[m].path, shown.snippets[k].path)
                    &&& t.files[m].confidence >= 65
                    &&& t.files[m].evidence.contains("small snippet read by ACE agent"@)
                })
            &&& forall|i: int|
                0 <= i < s.files.len() ==> i < t.files.len() && (#[trigger] t.files[i]).path
                    == s.files[i].path && t.files[i].reason == s.files[i].reason
                    && s.files[i].confidence <= t.files[i].confidence
                    && s.files[i].evidence.is_prefix_of(t.files[i].evidence)
            &&& forall|k: int|
                s.files.len() <= k < t.files.len() ==> shown.paths.contains(
                    (#[trigger] t.files[k]).path,
                ) && t.files[k].confidence == 65
            &&& t.iteration == s.iteration + 1
            &&& s.transcript.is_prefix_of(t.transcript)
            &&& t.repo_root == s.repo_root && t.max_iterations == s.max_iterations
            &&& t.conversation_distillation == s.conversation_distillation
            &&& step.action == (if s.iteration + 1 < s.max_iterations {
                LoopAction::Ask { force_finish: s.iteration + 2 == s.max_iterations }
            } else {
                LoopAction::Draft
            })
        }),
{
    let (t, step) = after(s, (Answer::Read { contents }));
    let snippets = snippets_upto(s.repo_root, targets, contents, targets.len() as int);
    let paths = snippet_paths(snippets);
    let more = observed_files(paths);
    let shown = t.observations.last();
    assert(shown.snippets == snippets && shown.paths == paths);
    assert(t.files == merged(s.files, more));
    law_merge(s.files, more);
    assert forall|i: int| 0 <= i < s.files.len() implies i < t.files.len() && (
    #[trigger] t.files[i]).path == s.files[i].path && t.files[i].reason == s.files[i].reason
        && s.files[i].confidence <= t.files[i].confidence && s.files[i].evidence.is_prefix_of(
        t.files[i].evidence,
    ) by {
        assert(crate::relevant_files::grew(s.files[i], t.files[i]));
    }
    assert forall|i: int|
        0 <= i < targets.len() && (#[trigger] contents[i]) is Some && !contents[i]->Some_0.contains(
            0u8,
        ) implies exists|k: int|
        0 <= k < shown.snippets.len() && (#[trigger] shown.snippets[k]).path == relative_to(
            targets[i],
            s.repo_root,
        ) && shown.snippets[k].truncated == (contents[i]->Some_0.len() > 2000) && (
        contents[i]->Some_0.len() <= 2000 ==> shown.snippets[k].content == trimmed(
            crate::bytes::lossy_text(contents[i]->Some_0),
        )) by {
        law_snippets(s.repo_root, targets, contents, targets.len() as int);
        let k = choose|k: int|
            0 <= k < snippets.len() && (#[trigger] snippets[k]).path == relative_to(
                targets[i],
                s.repo_root,
            ) && snippets[k].truncated == (contents[i]->Some_0.len() > 2000) && (
            contents[i]->Some_0.len() <= 2000 ==> snippets[k].content == trimmed(
                crate::bytes::lossy_text(contents[i]->Some_0),
            ));
        assert(shown.snippets[k].path == relative_to(targets[i], s.repo_root));
    }
    assert forall|k: int| 0 <= k < snippets.len() implies ({
        let m = place_of(t.files, (#[trigger] snippets[k]).path);
        &&& 0 <= m < t.files.len()
        &&& same_path(t.files[m].path, snippets[k].path)
        &&& t.files[m].confidence >= 65
        &&& t.files[m].evidence.contains("small snippet read by ACE agent"@)
    }) by {
        law_merge_adds(s.files, more, k);
        assert(more[k].path == snippets[k].path);
        assert(more[k].evidence[0] == "small snippet read by ACE agent"@);
    }
    lemma_new_observed(s.files, paths);
}

proof fn lemma_new_observed(files: Seq<RelevantFile>, paths: Seq<Seq<char>>)
    ensures
        forall|k: int|
            files.len() <= k < merged(files, observed_files(paths)).len() ==> paths.contains(
                (#[trigger] merged(files, observed_files(paths))[k]).path,
            ) && merged(files, observed_files(paths))[k].confidence == 65,
    decreases paths.len(),
{
    if paths.len() > 0 {
        let init = paths.drop_last();
        let before = merged(files, observed_files(init));
        let after = merged(files, observed_files(paths));
        assert(observed_files(paths).drop_last() =~= observed_files(init));
        assert(observed_files(paths).last() == observed_file(paths.last()));
        lemma_new_observed(files, init);
        lemma_place(before, paths.last());
        law_merge(files, observed_files(init));
        assert forall|k: int| files.len() <= k < after.len() implies paths.contains(
            (#[trigger] after[k]).path,
        ) && after[k].confidence == 65 by {
            if k < before.len() {
                assert(after[k].path == before[k].path);
                let m = choose|m: int| 0 <= m < init.len() && init[m] == before[k].path;
                assert(paths[m] == before[k].path);
            } else {
                assert(after[k] == observed_file(paths.last()));
                assert(paths[paths.len() - 1] == after[k].path);
            }
        }
    }
}

/// What the loop does with the step that the model chose. A draft that is not blank is reviewed,
/// without white space around it, as a preview of the prompt; a blank one ends the loop with an
/// error. A search asks for the first six queries that are not blank, and without any such query the
/// next round begins. A step that is not known, or no step at all, ends the loop with an error.
pub proof fn law_chosen_steps(s: LoopState, decision: Decision)
    requires
        s.phase == Phase::Deciding,
    ensures
        ({
            let (t, step) = after(s, (Answer::Decided { decision: Ok(decision) }));
            let asked = trimmed_each(decision.queries, white_space()).filter(non_empty());
            &&& t.prompt == s.prompt && t.repo_root == s.repo_root
            &&& t.max_iterations == s.max_iterations && t.files == s.files
            &&& t.conversation_distillation == s.conversation_distillation
            &&& s.observations.is_prefix_of(t.observations)
            &&& s.transcript.is_prefix_of(t.transcript)
            &&& decision.action == "finish"@ && !is_blank(decision.enhanced_prompt) ==> step.action
                == LoopAction::Review && (t.phase matches Phase::Reviewing { preview }
                && preview.original_prompt == s.prompt && preview.enhanced_prompt == trimmed(
                decision.enhanced_prompt,
            ) && preview.understanding == (if is_blank(decision.likely_understanding) {
                s.prompt
            } else {
                trimmed(decision.likely_understanding)
            })) && t.iteration == s.iteration && t.observations == s.observations
            &&& decision.action == "finish"@ && is_blank(decision.enhanced_prompt) ==> (
            step.action matches LoopAction::Finish { result } && result
                == Err::<Preview, Seq<char>>("PromptPilot ACE returned an empty enhanced prompt"@))
            &&& decision.action == "search_files"@ && asked.len() > 0 ==> (
            step.action matches LoopAction::Search { queries } && queries == (if asked.len() <= 6 {
                asked
            } else {
                asked.take(6)
            }) && t.phase == (Phase::Searching { reason: decision.reason, queries })) && t.iteration
                == s.iteration && t.observations == s.observations
            &&& decision.action == "search_files"@ && asked.len() == 0 ==> t.iteration
                == s.iteration + 1 && t.observations.len() == s.observations.len() + 1
                && t.observations.last().paths.len() == 0 && step.action == (if s.iteration + 1
                < s.max_iterations {
                LoopAction::Ask { force_finish: s.iteration + 2 == s.max_iterations }
            } else {
                LoopAction::Draft
            })
            &&& decision.action == "read_small_snippets"@ ==> (
            step.action matches LoopAction::Read { targets } && t.phase == (Phase::Reading {
                reason: decision.reason,
                targets,
            }) && targets == ({
                let paths = trimmed_each(decision.paths, white_space()).filter(non_empty());
                snippet_targets_of(
                    s.repo_root,
                    if paths.len() <= 5 {
                        paths
                    } else {
                        paths.take(5)
                    },
                )
            })) && t.iteration == s.iteration && t.observations == s.observations
            &&& decision.action != "finish"@ && decision.action != "search_files"@
                && decision.action != "read_small_snippets"@ ==> (
            step.action matches LoopAction::Finish { result } && result
                == Err::<Preview, Seq<char>>(
                "PromptPilot ACE returned unknown action `"@ + decision.action + "`"@,
            ))
        }),
{
    lemma_actions_differ();
}

proof fn lemma_actions_differ()
    ensures
        "finish"@ != "search_files"@,
        "finish"@ != "read_small_snippets"@,
        "search_files"@ != "read_small_snippets"@,
{
    reveal_strlit("finish");
    reveal_strlit("search_files");
    reveal_strlit("read_small_snippets");
    assert("finish"@.len() == 6);
    assert("search_files"@.len() == 12);
    assert("read_small_snippets"@.len() == 19);
}

/// Where an answer failed: no step, no draft and no review each end the loop with that very
/// message, while a conversation that could not be distilled does not.
pub proof fn law_failed_answers(s: LoopState, message: Seq<char>)
    ensures
        s.phase == Phase::Deciding ==> after(s, (Answer::Decided { decision: Err(message) })).1.action
            == (LoopAction::Finish { result: Err(message) }),
        s.phase == Phase::Drafting ==> after(s, (Answer::Drafted { reply: Err(message) })).1.action
            == (LoopAction::Finish { result: Err(message) }),
        s.phase is Reviewing ==> after(s, (Answer::Reviewed { review: Err(message) })).1.action == (
        LoopAction::Finish { result: Err(message) }),
        s.phase == Phase::Distilling ==> !(after(
            s,
            (Answer::Distilled { distillation: None }),
        ).1.action is Finish),
{
}

/// How the loop begins and goes on after a conversation was distilled. With a conversation that is
/// distilled first. What is found in it is kept, and then the first round begins: a step is asked
/// for, the last one where only one round is allowed, or a draft where none is.
pub proof fn law_first_round(
    prompt: Seq<char>,
    max_iterations: nat,
    repo_root: Seq<char>,
    files: Seq<RelevantFile>,
    conversation: Seq<char>,
    distillation: Option<AceConversationDistillation>,
)
    ensures
        ({
            let (s, step) = started(prompt, max_iterations, repo_root, files, Some(conversation));
            let (t, next) = after(s, (Answer::Distilled { distillation }));
            let (u, first) = started(prompt, max_iterations, repo_root, files, None);
            let asked = if max_iterations > 0 {
                LoopAction::Ask { force_finish: max_iterations == 1 }
            } else {
                LoopAction::Draft
            };
            &&& step.action == (LoopAction::Distill { conversation_context: conversation })
            &&& s.phase == Phase::Distilling
            &&& next.action == asked
            &&& first.action == asked
            &&& t.conversation_distillation == distillation
            &&& u.conversation_distillation is None
            &&& t.prompt == prompt && u.prompt == prompt
            &&& t.files == files && u.files == files
            &&& t.repo_root == repo_root && u.repo_root == repo_root
            &&& t.max_iterations == max_iterations && u.max_iterations == max_iterations
            &&& t.iteration == 0 && u.iteration == 0
            &&& t.observations.len() == 0 && u.observations.len() == 0
        }),
{
}

/// A draft that was asked for is reviewed word for word as a preview of the prompt, and what the
/// review makes of it is the result. A review that lets it pass may replace its texts, each by one
/// that is not blank; one that says nothing leaves them. One that does not let it pass ends the loop
/// with the reason.
pub proof fn law_draft_and_review(s: LoopState, reply: EnhanceReply, preview: Preview, review: Review)
    ensures
        s.phase == Phase::Drafting ==> ({
            let (t, step) = after(s, (Answer::Drafted { reply: Ok(reply) }));
            &&& step.action == LoopAction::Review
            &&& t.phase matches Phase::Reviewing { preview: draft } && draft.original_prompt
                == s.prompt && draft.understanding == reply.likely_understanding@
                && draft.enhanced_prompt == reply.enhanced_prompt@
            &&& t.files == s.files && t.observations == s.observations
        }),
        s.phase == (Phase::Reviewing { preview }) ==> ({
            let (t, step) = after(s, (Answer::Reviewed { review: Ok(review) }));
            let text = if is_blank(review.enhanced_prompt) {
                preview.enhanced_prompt
            } else {
                trimmed(review.enhanced_prompt)
            };
            let passes = review.status == "pass"@ || review.status == "repair"@;
            &&& t.phase == Phase::Finished
            &&& step.action matches LoopAction::Finish { result } && ({
                &&& passes && !is_blank(text) ==> (result matches Ok(out) && out.enhanced_prompt
                    == text && out.original_prompt == preview.original_prompt && out.understanding
                    == (if is_blank(review.likely_understanding) {
                    preview.understanding
                } else {
                    trimmed(review.likely_understanding)
                }))
                &&& passes && is_blank(text) ==> result == Err::<Preview, Seq<char>>(
                    "PromptPilot ACE guardrail review returned an empty prompt"@,
                )
                &&& review.status == "fail"@ && is_blank(review.reason) ==> result
                    == Err::<Preview, Seq<char>>(
                    "PromptPilot ACE skipped enhancement because semantic guardrails failed: "@
                        + "no reason provided"@,
                )
                &&& review.status == "fail"@ && !is_blank(review.reason) && trimmed(
                    review.reason,
                ).len() <= 220 ==> result == Err::<Preview, Seq<char>>(
                    "PromptPilot ACE skipped enhancement because semantic guardrails failed: "@
                        + trimmed(review.reason),
                )
                &&& !passes && review.status != "fail"@ ==> result == Err::<Preview, Seq<char>>(
                    "PromptPilot ACE guardrail review returned unknown status `"@ + review.status
                        + "`"@,
                )
            })
        }),
{
    reveal_strlit("pass");
    reveal_strlit("repair");
    reveal_strlit("fail");
    assert("pass"@[0] == 'p' && "repair"@[0] == 'r' && "fail"@[0] == 'f');
    if !is_blank(review.enhanced_prompt) {
        crate::text::lemma_trimmed_idempotent(review.enhanced_prompt);
    }
}

// ---------------------------------------------------------------------------
// Running the loop
// ---------------------------------------------------------------------------

fn generating_report(transcript: &Vec<String>, note: Option<&str>) -> (r: AceProgress)
    ensures
        r@ == generating(
            texts(transcript@),
            match note {
                Some(note) => Some(note@),
                None => None,
            },
        ),
{
    ace_loop_progress(AceProgressStep::GeneratingEnhancedPrompt, transcript, note)
}

fn one_report(report: AceProgress) -> (r: Vec<AceProgress>)
    ensures
        report_views(r@) == seq![report@],
{
    let mut reports: Vec<AceProgress> = Vec::new();
    reports.push(report);
    proof {
        assert(report_views(reports@) =~= seq![report@]);
    }
    reports
}

fn no_reports() -> (r: Vec<AceProgress>)
    ensures
        report_views(r@) == Seq::<Progress>::empty(),
{
    let reports: Vec<AceProgress> = Vec::new();
    proof {
        assert(report_views(reports@) =~= Seq::<Progress>::empty());
    }
    reports
}

fn copy_texts(v: &Vec<String>) -> (r: Vec<String>)
    ensures
        texts(r@) == texts(v@),
{
    crate::text::first_texts(v, v.len())
}

impl AceLoop {
    /// Starts the loop for a prompt, with what is known of the project and, where there is one,
    /// the conversation before the prompt.
    pub fn start(
        prompt: String,
        max_iterations: usize,
        context_pack: ContextPack,
        conversation_context: Option<String>,
    ) -> (r: (AceLoop, AceStep))
        ensures
            (r.0@, r.1@) == started(
                prompt@,
                max_iterations as nat,
                context_pack.project.repo_root@,
                file_views(context_pack.relevant_files@),
                match conversation_context {
                    Some(text) => Some(text@),
                    None => None,
                },
            ),
            loop_wf(r.0@),
            r.0.context_pack == context_pack,
    {
        let mut transcript: Vec<String> = Vec::new();
        proof {
            assert(texts(transcript@) =~= Seq::<Seq<char>>::empty());
        }
        push_ace_loop_note(
            &mut transcript,
            "Collected project context from docs, rules, manifests, and git state",
        );
        let mut ace = AceLoop {
            prompt,
            max_iterations,
            iteration: 0,
            context_pack,
            observations: Vec::new(),
            transcript,
            conversation_distillation: None,
            phase: AcePhase::Distilling,
        };
        proof {
            assert(observation_views(ace.observations@) =~= Seq::<Observation>::empty());
        }
        match conversation_context {
            Some(conversation_context) => {
                let report = generating_report(
                    &ace.transcript,
                    Some("Distilling conversation context"),
                );
                (
                    ace,
                    AceStep {
                        reports: one_report(report),
                        action: AceAction::Distill { conversation_context },
                    },
                )
            },
            None => {
                let step = ace.round();
                (ace, step)
            },
        }
    }

    fn round(&mut self) -> (step: AceStep)
        requires
            old(self).iteration <= old(self).max_iterations,
        ensures
            (final(self)@, step@) == round(old(self)@),
            final(self).context_pack == old(self).context_pack,
    {
        if self.iteration < self.max_iterations {
            let mut note = "Checking whether more context is needed (".to_owned();
            note.append(decimal(self.iteration + 1).as_str());
            note.append("/");
            note.append(decimal(self.max_iterations).as_str());
            note.append(")");
            self.phase = AcePhase::Deciding;
            AceStep {
                reports: one_report(generating_report(&self.transcript, Some(note.as_str()))),
                action: AceAction::Ask { force_finish: self.iteration + 1 == self.max_iterations },
            }
        } else {
            self.phase = AcePhase::Drafting;
            AceStep {
                reports: one_report(
                    generating_report(
                        &self.transcript,
                        Some("Reached iteration limit; drafting from collected context"),
                    ),
                ),
                action: AceAction::Draft,
            }
        }
    }

    fn next_round(&mut self, observation: AceAgentObservation, note: &str) -> (step: AceStep)
        requires
            old(self).iteration < old(self).max_iterations,
        ensures
            (final(self)@, step@) == next_round(old(self)@, observation@, note@),
            final(self).context_pack == old(self).context_pack,
    {
        let ghost before = self.observations@;
        self.observations.push(observation);
        push_ace_loop_note(&mut self.transcript, note);
        self.iteration += 1;
        proof {
            assert(observation_views(self.observations@) =~= observation_views(before).push(
                observation@,
            ));
        }
        let first = generating_report(&self.transcript, None);
        let AceStep { reports, action } = self.round();
        let mut all = one_report(first);
        let mut rest = reports;
        let ghost old_all = all@;
        let ghost old_rest = rest@;
        all.append(&mut rest);
        proof {
            assert(report_views(all@) =~= report_views(old_all) + report_views(old_rest));
        }
        AceStep { reports: all, action }
    }

    fn finish(
        &mut self,
        reports: Vec<AceProgress>,
        result: Result<PromptPilotPreview, String>,
    ) -> (step: AceStep)
        ensures
            (final(self)@, step@) == finished(
                old(self)@,
                report_views(reports@),
                result_view(result),
            ),
            final(self).context_pack == old(self).context_pack,
    {
        self.phase = AcePhase::Finished;
        AceStep { reports, action: AceAction::Finish { result } }
    }

    fn start_review(&mut self, reports: Vec<AceProgress>, preview: PromptPilotPreview) -> (step:
        AceStep)
        ensures
            (final(self)@, step@) == review_started(old(self)@, report_views(reports@), preview@),
            final(self).context_pack == old(self).context_pack,
    {
        let mut reports = reports;
        let ghost before = reports@;
        let report = ace_loop_progress(
            AceProgressStep::ReviewingGuardrails,
            &self.transcript,
            Some("Checking the draft before preview"),
        );
        reports.push(report);
        proof {
            assert(report_views(reports@) =~= report_views(before).push(report@));
        }
        self.phase = AcePhase::Reviewing { preview };
        AceStep { reports, action: AceAction::Review }
    }

    /// Goes on with what the conversation says, where that could be found out.
    pub fn on_distillation(
        &mut self,
        distillation: Option<AceConversationDistillation>,
    ) -> (step: AceStep)
        requires
            loop_wf(old(self)@),
            fits(old(self)@, (Answer::Distilled { distillation })),
        ensures
            (final(self)@, step@) == after(old(self)@, (Answer::Distilled { distillation })),
            loop_wf(final(self)@),
            final(self).context_pack == old(self).context_pack,
    {
        proof {
            law_loop(self@, (Answer::Distilled { distillation }));
        }
        match &distillation {
            Some(found) => {
                if conversation_distillation_has_context(found) {
                    push_ace_loop_note(
                        &mut self.transcript,
                        "Extracted context from the conversation",
                    );
                } else {
                    push_ace_loop_note(
                        &mut self.transcript,
                        "No additional conversation context was needed",
                    );
                }
            },
            None => {
                push_ace_loop_note(
                    &mut self.transcript,
                    "Could not extract conversation context; continuing with project context",
                );
            },
        }
        self.conversation_distillation = distillation;
        self.round()
    }

    fn on_finish(&mut self, decision: &AceAgentDecision) -> (step: AceStep)
        ensures
            (final(self)@, step@) == after_finish(old(self)@, decision@),
            final(self).context_pack == old(self).context_pack,
    {
        push_ace_loop_note(&mut self.transcript, "Drafted an enhanced prompt");
        let reports = one_report(
            generating_report(&self.transcript, Some("Building final prompt draft")),
        );
        if blank(decision.enhanced_prompt.as_str()) {
            return self.finish(
                reports,
                Err("PromptPilot ACE returned an empty enhanced prompt".to_owned()),
            );
        }
        let preview = PromptPilotPreview::new(
            self.prompt.clone(),
            trim_or(decision.likely_understanding.as_str(), self.prompt.as_str()),
            trim(decision.enhanced_prompt.as_str()).to_owned(),
        );
        self.start_review(reports, preview)
    }

    fn on_search_choice(&mut self, decision: &AceAgentDecision) -> (step: AceStep)
        requires
            old(self).iteration < old(self).max_iterations,
        ensures
            (final(self)@, step@) == after_search_choice(old(self)@, decision@),
            final(self).context_pack == old(self).context_pack,
    {
        let queries = non_empty_limited(&decision.queries, 6);
        proof {
            assert(texts(queries@).len() == queries@.len());
        }
        if queries.is_empty() {
            let observation = AceAgentObservation {
                action: "search_files".to_owned(),
                summary: "Model requested file search without queries.".to_owned(),
                paths: Vec::new(),
                snippets: Vec::new(),
            };
            proof {
                assert(observation@ =~= no_query_observation());
            }
            return self.next_round(
                observation,
                "Skipped file search because no query was available",
            );
        }
        push_ace_loop_note(&mut self.transcript, "Searching the codebase for relevant files");
        self.phase = AcePhase::Searching {
            reason: decision.reason.clone(),
            queries: copy_texts(&queries),
        };
        AceStep {
            reports: one_report(
                generating_report(&self.transcript, Some("Searching project files")),
            ),
            action: AceAction::Search { queries },
        }
    }

    fn on_read_choice(&mut self, decision: &AceAgentDecision) -> (step: AceStep)
        ensures
            (final(self)@, step@) == after_read_choice(old(self)@, decision@),
            final(self).context_pack == old(self).context_pack,
    {
        let paths = non_empty_limited(&decision.paths, 5);
        let targets = snippet_targets(self.context_pack.project.repo_root.as_str(), &paths);
        push_ace_loop_note(&mut self.transcript, "Reading snippets from likely files");
        self.phase = AcePhase::Reading {
            reason: decision.reason.clone(),
            targets: copy_texts(&targets),
        };
        AceStep {
            reports: one_report(
                generating_report(&self.transcript, Some("Reading source snippets")),
            ),
            action: AceAction::Read { targets },
        }
    }

    /// Goes on with the step that the model has chosen.
    pub fn on_decision(&mut self, decision: Result<AceAgentDecision, AceFailure>) -> (step: AceStep)
        requires
            loop_wf(old(self)@),
            old(self)@.phase == Phase::Deciding,
        ensures
            (final(self)@, step@) == after(
                old(self)@,
                (Answer::Decided { decision: decision_view(decision) }),
            ),
            loop_wf(final(self)@),
            final(self).context_pack == old(self).context_pack,
    {
        proof {
            law_loop(self@, (Answer::Decided { decision: decision_view(decision) }));
        }
        let decision = match decision {
            Ok(decision) => decision,
            Err(failure) => {
                let message = failure.message(AGENT_RESPONSE_INVALID);
                return self.finish(no_reports(), Err(message));
            },
        };
        push_ace_loop_note(
            &mut self.transcript,
            assessment_note_for_action(decision.action.as_str()),
        );
        if same_text(decision.action.as_str(), "finish") {
            self.on_finish(&decision)
        } else if same_text(decision.action.as_str(), "search_files") {
            self.on_search_choice(&decision)
        } else if same_text(decision.action.as_str(), "read_small_snippets") {
            self.on_read_choice(&decision)
        } else {
            let mut message = "PromptPilot ACE returned unknown action `".to_owned();
            message.append(decision.action.as_str());
            message.append("`");
            self.finish(no_reports(), Err(message))
        }
    }

    /// Goes on with the matches of each query.
    pub fn on_search(&mut self, searches: &Vec<Vec<FileMatch>>) -> (step: AceStep)
        requires
            loop_wf(old(self)@),
            fits(old(self)@, (Answer::Searched { searches: searches@ })),
        ensures
            (final(self)@, step@) == after(
                old(self)@,
                (Answer::Searched { searches: searches@ }),
            ),
            loop_wf(final(self)@),
            same_pack_but_files(old(self).context_pack, final(self).context_pack),
    {
        proof {
            law_loop(self@, (Answer::Searched { searches: searches@ }));
        }
        let mut phase = AcePhase::Finished;
        std::mem::swap(&mut phase, &mut self.phase);
        if let AcePhase::Searching { reason, queries } = phase {
            proof {
                assert(texts(queries@).len() == queries@.len());
            }
            let files = retrieve_relevant_files_for_queries(
                self.context_pack.project.repo_root.as_str(),
                &queries,
                searches,
            );
            let paths = paths_of(&files);
            merge_relevant_files(&mut self.context_pack.relevant_files, &files);
            let note = search_result_note(&paths);
            let observation = AceAgentObservation {
                action: "search_files".to_owned(),
                summary: fallback_reason(reason.as_str()),
                paths,
                snippets: Vec::new(),
            };
            proof {
                assert(observation@.snippets =~= Seq::<Snippet>::empty());
            }
            self.next_round(observation, note.as_str())
        } else {
            AceStep { reports: no_reports(), action: AceAction::Draft }
        }
    }

    /// Goes on with what each file holds, where it could be read.
    pub fn on_contents(&mut self, contents: &Vec<Option<Vec<u8>>>) -> (step: AceStep)
        requires
            loop_wf(old(self)@),
            fits(old(self)@, (Answer::Read { contents: contents_view(contents@) })),
        ensures
            (final(self)@, step@) == after(
                old(self)@,
                (Answer::Read { contents: contents_view(contents@) }),
            ),
            loop_wf(final(self)@),
            same_pack_but_files(old(self).context_pack, final(self).context_pack),
    {
        proof {
            law_loop(self@, (Answer::Read { contents: contents_view(contents@) }));
        }
        let mut phase = AcePhase::Finished;
        std::mem::swap(&mut phase, &mut self.phase);
        if let AcePhase::Reading { reason, targets } = phase {
            proof {
                assert(texts(targets@).len() == targets@.len());
                assert(contents_view(contents@).len() == contents@.len());
            }
            let snippets = read_small_snippets(
                self.context_pack.project.repo_root.as_str(),
                &targets,
                contents,
            );
            let paths = observed_paths(&snippets);
            let ghost files = file_views(self.context_pack.relevant_files@);
            let ghost observed = observed_files(texts(paths@));
            let ghost pack = self.context_pack;
            let ghost rest = *self;
            let mut i: usize = 0;
            proof {
                assert(observed.take(0) =~= Seq::<RelevantFile>::empty());
            }
            while i < paths.len()
                invariant
                    i <= paths@.len(),
                    observed == observed_files(texts(paths@)),
                    file_views(self.context_pack.relevant_files@) == merged(
                        files,
                        observed.take(i as int),
                    ),
                    same_pack_but_files(pack, self.context_pack),
                    self.prompt == rest.prompt,
                    self.max_iterations == rest.max_iterations,
                    self.iteration == rest.iteration,
                    self.observations == rest.observations,
                    self.transcript == rest.transcript,
                    self.conversation_distillation == rest.conversation_distillation,
                    self.phase == rest.phase,
                decreases paths@.len() - i,
            {
                add_observed_relevant_file(
                    &mut self.context_pack.relevant_files,
                    paths[i].as_str(),
                );
                proof {
                    let next = observed.take(i + 1);
                    assert(next.drop_last() =~= observed.take(i as int));
                    assert(next.last() == observed_file(paths@[i as int]@));
                }
                i += 1;
            }
            proof {
                assert(observed.len() == paths@.len());
                assert(observed.take(paths@.len() as int) =~= observed);
            }
            let note = snippet_result_note(&paths);
            let observation = AceAgentObservation {
                action: "read_small_snippets".to_owned(),
                summary: trim(reason.as_str()).to_owned(),
                paths,
                snippets,
            };
            self.next_round(observation, note.as_str())
        } else {
            AceStep { reports: no_reports(), action: AceAction::Draft }
        }
    }

    /// Goes on with a draft made of what is known.
    pub fn on_draft(&mut self, reply: Result<EnhanceReply, String>) -> (step: AceStep)
        requires
            loop_wf(old(self)@),
            old(self)@.phase == Phase::Drafting,
        ensures
            (final(self)@, step@) == after(
                old(self)@,
                (Answer::Drafted { reply: reply_view(reply) }),
            ),
            loop_wf(final(self)@),
            final(self).context_pack == old(self).context_pack,
    {
        match reply {
            Ok(reply) => {
                let preview = preview_from_reply(self.prompt.clone(), reply);
                self.start_review(no_reports(), preview)
            },
            Err(message) => self.finish(no_reports(), Err(message)),
        }
    }

    /// Ends with what the review makes of the draft.
    pub fn on_review(&mut self, review: Result<AceGuardrailReview, AceFailure>) -> (step: AceStep)
        requires
            loop_wf(old(self)@),
            old(self)@.phase is Reviewing,
        ensures
            (final(self)@, step@) == after(
                old(self)@,
                (Answer::Reviewed { review: review_view(review) }),
            ),
            loop_wf(final(self)@),
            final(self).context_pack == old(self).context_pack,
    {
        let review = match review {
            Ok(review) => review,
            Err(failure) => {
                let message = failure.message(GUARDRAIL_RESPONSE_INVALID);
                return self.finish(no_reports(), Err(message));
            },
        };
        let mut phase = AcePhase::Finished;
        std::mem::swap(&mut phase, &mut self.phase);
        if let AcePhase::Reviewing { preview } = phase {
            let result = review_prompt_pilot_ace_guardrails(&preview, &review);
            self.finish(no_reports(), result)
        } else {
            AceStep { reports: no_reports(), action: AceAction::Draft }
        }
    }

    /// The draft that is being reviewed.
    pub fn draft(&self) -> (r: Option<&PromptPilotPreview>)
        ensures
            r is Some <==> self@.phase is Reviewing,
            r matches Some(preview) ==> self@.phase == (Phase::Reviewing { preview: preview@ }),
    {
        match &self.phase {
            AcePhase::Reviewing { preview } => Some(preview),
            _ => None,
        }
    }
}

fn paths_of(files: &Vec<RelevantFileBlock>) -> (out: Vec<String>)
    ensures
        texts(out@) == paths_in(file_views(files@)),
{
    let ghost all = paths_in(file_views(files@));
    let mut out: Vec<String> = Vec::new();
    let mut i: usize = 0;
    proof {
        assert(texts(out@) =~= all.take(0));
    }
    while i < files.len()
        invariant
            i <= files@.len(),
            all == paths_in(file_views(files@)),
            texts(out@) == all.take(i as int),
        decreases files@.len() - i,
    {
        broadcast use lemma_texts_push;

        out.push(files[i].path.clone());
        proof {
            assert(all[i as int] == files@[i as int].path@);
            crate::text::lemma_take_push(all, i as int);
        }
        i += 1;
    }
    proof {
        assert(all.take(files@.len() as int) =~= all);
    }
    out
}

fn observed_paths(snippets: &Vec<AceSnippetObservation>) -> (out: Vec<String>)
    ensures
        texts(out@) == snippet_paths(snippet_views(snippets@)),
{
    let ghost all = snippet_paths(snippet_views(snippets@));
    let mut out: Vec<String> = Vec::new();
    let mut i: usize = 0;
    proof {
        assert(texts(out@) =~= all.take(0));
    }
    while i < snippets.len()
        invariant
            i <= snippets@.len(),
            all == snippet_paths(snippet_views(snippets@)),
            texts(out@) == all.take(i as int),
        decreases snippets@.len() - i,
    {
        broadcast use lemma_texts_push;

        out.push(snippets[i].path.clone());
        proof {
            assert(all[i as int] == snippets@[i as int].path@);
            crate::text::lemma_take_push(all, i as int);
        }
        i += 1;
    }
    proof {
        assert(all.take(snippets@.len() as int) =~= all);
    }
    out
}

/// Whether the last report of a step shows `shown` as the step that is being done, with `note`
/// below all other notes.
pub open spec fn reports_last(step: LoopStep, shown: AceProgressStep, note: Seq<char>) -> bool {
    &&& step.reports.len() > 0
    &&& step.reports.last().current == Some(shown)
    &&& step.reports.last().notes.len() > 0
    &&& step.reports.last().notes.last() == note
}

/// What is told while a loop runs: what is asked for next, under the step that is being done. A
/// question for the next step is told with its number and how many there are.
#[verifier::spinoff_prover]
pub proof fn law_reports(s: LoopState, answer: Answer)
    requires
        fits(s, answer),
    ensures
        ({
            let (t, step) = after(s, answer);
            &&& match step.action {
                LoopAction::Ask { .. } => reports_last(
                    step,
                    AceProgressStep::GeneratingEnhancedPrompt,
                    "Checking whether more context is needed ("@ + decimal_text(t.iteration + 1)
                        + "/"@ + decimal_text(t.max_iterations) + ")"@,
                ),
                LoopAction::Search { .. } => reports_last(
                    step,
                    AceProgressStep::GeneratingEnhancedPrompt,
                    "Searching project files"@,
                ),
                LoopAction::Read { .. } => reports_last(
                    step,
                    AceProgressStep::GeneratingEnhancedPrompt,
                    "Reading source snippets"@,
                ),
                LoopAction::Draft => reports_last(
                    step,
                    AceProgressStep::GeneratingEnhancedPrompt,
                    "Reached iteration limit; drafting from collected context"@,
                ),
                LoopAction::Review => reports_last(
                    step,
                    AceProgressStep::ReviewingGuardrails,
                    "Checking the draft before preview"@,
                ),
                _ => true,
            }
            &&& forall|i: int|
                0 <= i < step.reports.len() && (#[trigger] step.reports[i]).current == Some(
                    AceProgressStep::ReviewingGuardrails,
                ) ==> step.action == LoopAction::Review && i == step.reports.len() - 1
        }),
{
    let (t, step) = after(s, answer);
    let max = t.max_iterations;
    lemma_notes_are_told(round_note(t.iteration, max));
    lemma_told(t.transcript, "Searching project files"@);
    lemma_told(t.transcript, "Reading source snippets"@);
    lemma_told(t.transcript, "Reached iteration limit; drafting from collected context"@);
    lemma_told(t.transcript, round_note(t.iteration, max));
    law_loop_progress(
        AceProgressStep::ReviewingGuardrails,
        t.transcript,
        Some("Checking the draft before preview"@),
    );
    law_loop_progress(AceProgressStep::GeneratingEnhancedPrompt, t.transcript, None);
    lemma_first_letter("Searching project files"@);
    lemma_first_letter("Reading source snippets"@);
    lemma_first_letter("Reached iteration limit; drafting from collected context"@);
    lemma_first_letter("Checking the draft before preview"@);
    reveal_strlit("Searching project files");
    reveal_strlit("Reading source snippets");
    reveal_strlit("Reached iteration limit; drafting from collected context");
    reveal_strlit("Checking the draft before preview");
    lemma_told(t.transcript, "Building final prompt draft"@);
}

proof fn lemma_told(transcript: Seq<Seq<char>>, note: Seq<char>)
    ensures
        generating(transcript, Some(note)).current == Some(
            AceProgressStep::GeneratingEnhancedPrompt,
        ),
        !is_blank(note) ==> generating(transcript, Some(note)).notes.len() > 0 && generating(
            transcript,
            Some(note),
        ).notes.last() == note,
{
    law_loop_progress(AceProgressStep::GeneratingEnhancedPrompt, transcript, Some(note));
}

proof fn lemma_first_letter(note: Seq<char>)
    ensures
        note.len() > 0 && ('A' <= note[0] <= 'Z') ==> !is_blank(note),
{
    if note.len() > 0 && 'A' <= note[0] <= 'Z' {
        crate::text::law_blank(note);
        vstd::utf8::char_is_scalar(note[0]);
    }
}

proof fn lemma_notes_are_told(note: Seq<char>)
    ensures
        forall|n: nat, max: nat| !is_blank(#[trigger] round_note(n, max)),
{
    reveal_strlit("Checking whether more context is needed (");
    assert forall|n: nat, max: nat| !is_blank(#[trigger] round_note(n, max)) by {
        assert(round_note(n, max)[0] == 'C');
        lemma_first_letter(round_note(n, max));
    }
}

/// What a conversation gave is told: context was extracted exactly where one of the lists that were
/// drawn from it holds something.
pub proof fn law_distillation_note(s: LoopState, d: AceConversationDistillation)
    requires
        s.phase == Phase::Distilling,
    ensures
        ({
            let (t, step) = after(s, (Answer::Distilled { distillation: Some(d) }));
            let empty = d.hard_constraints@.len() == 0 && d.prior_decisions@.len() == 0
                && d.mentioned_paths@.len() == 0 && d.search_hints@.len() == 0
                && d.uncertainties@.len() == 0;
            &&& t.transcript.len() > 0
            &&& t.transcript.last() == (if empty {
                "No additional conversation context was needed"@
            } else {
                "Extracted context from the conversation"@
            })
        }),
        ({
            let (t, step) = after(s, (Answer::Distilled { distillation: None }));
            &&& t.transcript.len() > 0
            &&& t.transcript.last()
                == "Could not extract conversation context; continuing with project context"@
        }),
{
    reveal_strlit("No additional conversation context was needed");
    reveal_strlit("Extracted context from the conversation");
    reveal_strlit("Could not extract conversation context; continuing with project context");
}

/// What was found or read is the last note of the loop, as the notes on files say it.
pub proof fn law_notes_of_files(
    s: LoopState,
    reason: Seq<char>,
    asked: Seq<Seq<char>>,
    searches: Seq<Vec<FileMatch>>,
    contents: Seq<Option<Seq<u8>>>,
)
    ensures
        s.phase == (Phase::Searching { reason, queries: asked }) ==> ({
            let (t, step) = after(s, (Answer::Searched { searches }));
            let note = search_note(t.observations.last().paths);
            &&& t.transcript.len() > 0
            &&& note.len() <= 220 ==> t.transcript.last() == note
            &&& note.len() > 220 ==> t.transcript.last() == note.take(220) + "..."@
        }),
        s.phase == (Phase::Reading { reason, targets: asked }) ==> ({
            let (t, step) = after(s, (Answer::Read { contents }));
            let note = snippet_note(t.observations.last().paths);
            &&& t.transcript.len() > 0
            &&& note.len() <= 220 ==> t.transcript.last() == note
            &&& note.len() > 220 ==> t.transcript.last() == note.take(220) + "..."@
        }),
{
}

/// A failure is told by its own message, and an answer that cannot be read under a heading that says
/// whose it was.
pub proof fn law_failure_texts(message: String)
    ensures
        decision_view(Err(AceFailure::Request(message))) == Err::<Decision, Seq<char>>(message@),
        review_view(Err(AceFailure::Request(message))) == Err::<Review, Seq<char>>(message@),
        decision_view(Err(AceFailure::Response(message))) == Err::<Decision, Seq<char>>(
            AGENT_RESPONSE_INVALID@ + message@,
        ),
        review_view(Err(AceFailure::Response(message))) == Err::<Review, Seq<char>>(
            GUARDRAIL_RESPONSE_INVALID@ + message@,
        ),
{
}

} // verus!
