//! What the model is asked when a prompt is enhanced, and where.
use vstd::prelude::*;
use crate::instructions::{
    ACE_AGENT_LOOP_INSTRUCTIONS, ACE_CONVERSATION_DISTILLATION_INSTRUCTIONS,
    ACE_GUARDRAIL_INSTRUCTIONS, ACE_PROMPT_PILOT_INSTRUCTIONS, PROMPT_PILOT_INSTRUCTIONS,
};
use crate::json::{json_tree, member, JsonTree};
use crate::schemas::{
    ace_agent_step_schema, ace_conversation_distillation_schema, ace_guardrail_review_schema,
    distillation_names, distillation_properties, enhancement_names, enhancement_properties,
    law_schemas_are_closed,
    object_tree, prompt_enhancement_schema, review_names, review_properties, step_names,
    step_properties,
};
use crate::text::{begins_with, has_text, lemma_has_middle, strip_prefix, texts};

verus! {

/// What marks a request to distill a conversation.
pub const ACE_CONVERSATION_CONTEXT_PREFIX: &'static str = "__PROMPT_PILOT_ACE_CONVERSATION_CONTEXT__\n";

/// What marks a request for the next step.
pub const ACE_AGENT_LOOP_CONTEXT_PREFIX: &'static str = "__PROMPT_PILOT_ACE_AGENT_LOOP__\n";

/// What marks a request to review a draft.
pub const ACE_GUARDRAIL_CONTEXT_PREFIX: &'static str = "__PROMPT_PILOT_ACE_GUARDRAIL__\n";

// ---------------------------------------------------------------------------
// Configuration
// ---------------------------------------------------------------------------

/// How prompts are enhanced.
#[derive(Clone, Debug, PartialEq, Eq)]
pub struct PromptPilotConfig {
    /// The model to use; without one it is that of the session.
    pub model: Option<String>,
    /// Where the model is reached.
    pub base_url: Option<String>,
    /// The environment variable that holds the key; empty where none is needed.
    pub api_key_env: Option<String>,
    /// Whether a session starts with project context.
    pub ace_default_enabled: bool,
    /// How many steps may be taken to gather project context.
    pub ace_max_iterations: usize,
}

impl Default for PromptPilotConfig {
    fn default() -> (r: Self)
        ensures
            r.model is None,
            r.base_url is None,
            r.api_key_env is None,
            !r.ace_default_enabled,
            r.ace_max_iterations == 5,
    {
        PromptPilotConfig {
            model: None,
            base_url: None,
            api_key_env: None,
            ace_default_enabled: false,
            ace_max_iterations: 5,
        }
    }
}

/// The number of steps for a configured number: five where there is none, and between one and
/// twenty.
pub fn effective_ace_max_iterations(configured: Option<usize>) -> (r: usize)
    ensures
        1 <= r <= 20,
        configured is None ==> r == 5,
        configured matches Some(n) ==> r == (if n < 1 {
            1
        } else if n > 20 {
            20
        } else {
            n as int
        }),
{
    match configured {
        None => 5,
        Some(n) => if n < 1 {
            1
        } else if n > 20 {
            20
        } else {
            n
        },
    }
}

// ---------------------------------------------------------------------------
// What the user says
// ---------------------------------------------------------------------------

/// The prompt, and after it something in JSON under a heading.
pub open spec fn content_with(prompt: Seq<char>, heading: Seq<char>, json: Seq<char>) -> Seq<
    char,
> {
    "Original prompt:\n"@ + prompt + heading + json
}

/// The prompt, and after it the context pack where there is one.
pub open spec fn user_content(prompt: Seq<char>, context_pack_json: Option<Seq<char>>) -> Seq<
    char,
> {
    match context_pack_json {
        Some(json) => content_with(prompt, "\n\nContext Pack JSON:\n"@, json),
        None => "Original prompt:\n"@ + prompt,
    }
}

/// The view of an optional text.
pub open spec fn optional_text(text: Option<&str>) -> Option<Seq<char>> {
    match text {
        Some(text) => Some(text@),
        None => None,
    }
}

fn write_content(prompt: &str, heading: &str, json: &str) -> (r: String)
    ensures
        r@ == content_with(prompt@, heading@, json@),
{
    let mut out = "Original prompt:\n".to_owned();
    out.append(prompt);
    out.append(heading);
    out.append(json);
    out
}

/// The prompt, and after it the context pack where there is one.
pub fn prompt_user_content(original_prompt: &str, context_pack_json: Option<&str>) -> (r: String)
    ensures
        r@ == user_content(original_prompt@, optional_text(context_pack_json)),
{
    match context_pack_json {
        Some(json) => write_content(original_prompt, "\n\nContext Pack JSON:\n", json),
        None => {
            let mut out = "Original prompt:\n".to_owned();
            out.append(original_prompt);
            out
        },
    }
}

/// The prompt, and after it the state of the loop.
pub fn ace_agent_loop_user_content(original_prompt: &str, state_json: &str) -> (r: String)
    ensures
        r@ == content_with(original_prompt@, "\n\nACE state JSON:\n"@, state_json@),
{
    write_content(original_prompt, "\n\nACE state JSON:\n", state_json)
}

/// The prompt, and after it the conversation.
pub fn ace_conversation_distillation_user_content(
    original_prompt: &str,
    state_json: &str,
) -> (r: String)
    ensures
        r@ == content_with(
            original_prompt@,
            "\n\nACE conversation context JSON:\n"@,
            state_json@,
        ),
{
    write_content(original_prompt, "\n\nACE conversation context JSON:\n", state_json)
}

/// The prompt, and after it the draft with what it was made of.
pub fn ace_guardrail_user_content(original_prompt: &str, state_json: &str) -> (r: String)
    ensures
        r@ == content_with(original_prompt@, "\n\nACE guardrail review JSON:\n"@, state_json@),
{
    write_content(original_prompt, "\n\nACE guardrail review JSON:\n", state_json)
}

// ---------------------------------------------------------------------------
// Requests that are no enhancement
// ---------------------------------------------------------------------------

/// The form of an answer.
#[derive(Clone, Copy, Debug, PartialEq, Eq, Structural)]
pub enum OutputSchema {
    PromptEnhancement,
    ConversationDistillation,
    AgentStep,
    GuardrailReview,
}

impl OutputSchema {
    /// The JSON schema of the form.
    pub open spec fn tree(self) -> JsonTree {
        match self {
            OutputSchema::PromptEnhancement => object_tree(
                enhancement_properties(),
                enhancement_names(),
            ),
            OutputSchema::ConversationDistillation => object_tree(
                distillation_properties(),
                distillation_names(),
            ),
            OutputSchema::AgentStep => object_tree(step_properties(), step_names()),
            OutputSchema::GuardrailReview => object_tree(review_properties(), review_names()),
        }
    }

    /// The JSON schema of the form.
    pub fn schema(self) -> (r: serde_json::Value)
        ensures
            json_tree(r) == self.tree(),
    {
        match self {
            OutputSchema::PromptEnhancement => prompt_enhancement_schema(),
            OutputSchema::ConversationDistillation => ace_conversation_distillation_schema(),
            OutputSchema::AgentStep => ace_agent_step_schema(),
            OutputSchema::GuardrailReview => ace_guardrail_review_schema(),
        }
    }
}

/// A request that the user does not see: a part of gathering project context.
pub struct AceHiddenPromptRequest {
    pub instructions: &'static str,
    pub user_content: String,
    pub output_schema: OutputSchema,
}

/// The model of an [`AceHiddenPromptRequest`].
#[verifier::ext_equal]
pub struct HiddenRequest {
    pub instructions: Seq<char>,
    pub user_content: Seq<char>,
    pub output_schema: OutputSchema,
}

impl View for AceHiddenPromptRequest {
    type V = HiddenRequest;

    open spec fn view(&self) -> HiddenRequest {
        HiddenRequest {
            instructions: self.instructions@,
            user_content: self.user_content@,
            output_schema: self.output_schema,
        }
    }
}

/// The request to distill a conversation.
pub open spec fn distillation_request(prompt: Seq<char>, json: Seq<char>) -> HiddenRequest {
    HiddenRequest {
        instructions: ACE_CONVERSATION_DISTILLATION_INSTRUCTIONS@,
        user_content: content_with(prompt, "\n\nACE conversation context JSON:\n"@, json),
        output_schema: OutputSchema::ConversationDistillation,
    }
}

/// The request for the next step.
pub open spec fn step_request(prompt: Seq<char>, json: Seq<char>) -> HiddenRequest {
    HiddenRequest {
        instructions: ACE_AGENT_LOOP_INSTRUCTIONS@,
        user_content: content_with(prompt, "\n\nACE state JSON:\n"@, json),
        output_schema: OutputSchema::AgentStep,
    }
}

/// The request to review a draft.
pub open spec fn review_request(prompt: Seq<char>, json: Seq<char>) -> HiddenRequest {
    HiddenRequest {
        instructions: ACE_GUARDRAIL_INSTRUCTIONS@,
        user_content: content_with(prompt, "\n\nACE guardrail review JSON:\n"@, json),
        output_schema: OutputSchema::GuardrailReview,
    }
}

/// The hidden request that a context stands for, by the mark that it starts with.
pub open spec fn hidden_request(context: Option<Seq<char>>, prompt: Seq<char>) -> Option<
    HiddenRequest,
> {
    match context {
        Some(text) => {
            if begins_with(text, ACE_CONVERSATION_CONTEXT_PREFIX@) {
                Some(
                    distillation_request(
                        prompt,
                        text.skip(ACE_CONVERSATION_CONTEXT_PREFIX@.len() as int),
                    ),
                )
            } else if begins_with(text, ACE_AGENT_LOOP_CONTEXT_PREFIX@) {
                Some(
                    step_request(prompt, text.skip(ACE_AGENT_LOOP_CONTEXT_PREFIX@.len() as int)),
                )
            } else if begins_with(text, ACE_GUARDRAIL_CONTEXT_PREFIX@) {
                Some(
                    review_request(prompt, text.skip(ACE_GUARDRAIL_CONTEXT_PREFIX@.len() as int)),
                )
            } else {
                None
            }
        },
        None => None,
    }
}

/// The hidden request that a context stands for, by the mark that it starts with.
pub fn ace_hidden_prompt_request(
    context_pack_json: Option<&str>,
    original_prompt: &str,
) -> (r: Option<AceHiddenPromptRequest>)
    ensures
        r is Some <==> hidden_request(
            optional_text(context_pack_json),
            original_prompt@,
        ) is Some,
        r matches Some(request) ==> hidden_request(
            optional_text(context_pack_json),
            original_prompt@,
        ) == Some(request@),
{
    let context_pack_json = match context_pack_json {
        Some(text) => text,
        None => return None,
    };
    if let Some(state_json) = strip_prefix(context_pack_json, ACE_CONVERSATION_CONTEXT_PREFIX) {
        return Some(
            AceHiddenPromptRequest {
                instructions: ACE_CONVERSATION_DISTILLATION_INSTRUCTIONS,
                user_content: ace_conversation_distillation_user_content(
                    original_prompt,
                    state_json,
                ),
                output_schema: OutputSchema::ConversationDistillation,
            },
        );
    }
    if let Some(state_json) = strip_prefix(context_pack_json, ACE_AGENT_LOOP_CONTEXT_PREFIX) {
        return Some(
            AceHiddenPromptRequest {
                instructions: ACE_AGENT_LOOP_INSTRUCTIONS,
                user_content: ace_agent_loop_user_content(original_prompt, state_json),
                output_schema: OutputSchema::AgentStep,
            },
        );
    }
    match strip_prefix(context_pack_json, ACE_GUARDRAIL_CONTEXT_PREFIX) {
        Some(state_json) => Some(
            AceHiddenPromptRequest {
                instructions: ACE_GUARDRAIL_INSTRUCTIONS,
                user_content: ace_guardrail_user_content(original_prompt, state_json),
                output_schema: OutputSchema::GuardrailReview,
            },
        ),
        None => None,
    }
}

fn after_mark(mark: &str, json: &str) -> (r: String)
    ensures
        r@ == mark@ + json@,
{
    let mut out = mark.to_owned();
    out.append(json);
    out
}

/// The context that asks to distill a conversation.
pub fn ace_conversation_context(input_json: &str) -> (r: String)
    ensures
        r@ == ACE_CONVERSATION_CONTEXT_PREFIX@ + input_json@,
{
    after_mark(ACE_CONVERSATION_CONTEXT_PREFIX, input_json)
}

/// The context that asks for the next step.
pub fn ace_agent_loop_context(state_json: &str) -> (r: String)
    ensures
        r@ == ACE_AGENT_LOOP_CONTEXT_PREFIX@ + state_json@,
{
    after_mark(ACE_AGENT_LOOP_CONTEXT_PREFIX, state_json)
}

/// The context that asks to review a draft.
pub fn ace_guardrail_context(input_json: &str) -> (r: String)
    ensures
        r@ == ACE_GUARDRAIL_CONTEXT_PREFIX@ + input_json@,
{
    after_mark(ACE_GUARDRAIL_CONTEXT_PREFIX, input_json)
}

proof fn lemma_marks(text: Seq<char>)
    ensures
        !(begins_with(text, ACE_CONVERSATION_CONTEXT_PREFIX@) && begins_with(
            text,
            ACE_AGENT_LOOP_CONTEXT_PREFIX@,
        )),
        !(begins_with(text, ACE_CONVERSATION_CONTEXT_PREFIX@) && begins_with(
            text,
            ACE_GUARDRAIL_CONTEXT_PREFIX@,
        )),
        !(begins_with(text, ACE_AGENT_LOOP_CONTEXT_PREFIX@) && begins_with(
            text,
            ACE_GUARDRAIL_CONTEXT_PREFIX@,
        )),
        text.len() > 0 && text[0] != '_' ==> !begins_with(text, ACE_CONVERSATION_CONTEXT_PREFIX@)
            && !begins_with(text, ACE_AGENT_LOOP_CONTEXT_PREFIX@) && !begins_with(
            text,
            ACE_GUARDRAIL_CONTEXT_PREFIX@,
        ),
{
    reveal_strlit("__PROMPT_PILOT_ACE_CONVERSATION_CONTEXT__\n");
    reveal_strlit("__PROMPT_PILOT_ACE_AGENT_LOOP__\n");
    reveal_strlit("__PROMPT_PILOT_ACE_GUARDRAIL__\n");
    let a = ACE_CONVERSATION_CONTEXT_PREFIX@;
    let b = ACE_AGENT_LOOP_CONTEXT_PREFIX@;
    let c = ACE_GUARDRAIL_CONTEXT_PREFIX@;
    assert(a[19] == 'C' && b[19] == 'A' && c[19] == 'G');
    assert(a[0] == '_' && b[0] == '_' && c[0] == '_');
    if begins_with(text, a) {
        assert(text.take(a.len() as int)[19] == text[19]);
        assert(text.take(a.len() as int)[0] == text[0]);
    }
    if begins_with(text, b) {
        assert(text.take(b.len() as int)[19] == text[19]);
        assert(text.take(b.len() as int)[0] == text[0]);
    }
    if begins_with(text, c) {
        assert(text.take(c.len() as int)[19] == text[19]);
        assert(text.take(c.len() as int)[0] == text[0]);
    }
}

/// What is asked in gathering project context is answered as such: a marked context is taken for
/// the request that it was marked as, with the very JSON that was marked.
pub proof fn law_marks_are_recognised(prompt: Seq<char>, json: Seq<char>)
    ensures
        hidden_request(Some(ACE_CONVERSATION_CONTEXT_PREFIX@ + json), prompt) == Some(
            distillation_request(prompt, json),
        ),
        hidden_request(Some(ACE_AGENT_LOOP_CONTEXT_PREFIX@ + json), prompt) == Some(
            step_request(prompt, json),
        ),
        hidden_request(Some(ACE_GUARDRAIL_CONTEXT_PREFIX@ + json), prompt) == Some(
            review_request(prompt, json),
        ),
{
    let a = ACE_CONVERSATION_CONTEXT_PREFIX@;
    let b = ACE_AGENT_LOOP_CONTEXT_PREFIX@;
    let c = ACE_GUARDRAIL_CONTEXT_PREFIX@;
    lemma_marks(a + json);
    lemma_marks(b + json);
    lemma_marks(c + json);
    assert((a + json).take(a.len() as int) =~= a);
    assert((b + json).take(b.len() as int) =~= b);
    assert((c + json).take(c.len() as int) =~= c);
    assert((a + json).skip(a.len() as int) =~= json);
    assert((b + json).skip(b.len() as int) =~= json);
    assert((c + json).skip(c.len() as int) =~= json);
}

/// A context pack in JSON, which starts with a brace, is never taken for a hidden request.
pub proof fn law_context_pack_is_no_hidden_request(prompt: Seq<char>, json: Seq<char>)
    requires
        json.len() > 0,
        json[0] == '{',
    ensures
        hidden_request(Some(json), prompt) is None,
{
    lemma_marks(json);
}

// ---------------------------------------------------------------------------
// The request itself
// ---------------------------------------------------------------------------

/// A message with the role of its author.
#[derive(Clone, Debug, PartialEq, Eq)]
pub struct ChatCompletionMessage {
    pub role: &'static str,
    pub content: String,
}

/// A request to an endpoint for chat completions.
#[derive(Clone, Debug, PartialEq, Eq)]
pub struct ChatCompletionsRequest {
    pub model: String,
    pub messages: Vec<ChatCompletionMessage>,
    /// The kind of the response format.
    pub response_format: &'static str,
    pub stream: bool,
}

/// The models of messages: role and content of each.
pub open spec fn message_views(messages: Seq<ChatCompletionMessage>) -> Seq<
    (Seq<char>, Seq<char>),
> {
    Seq::new(messages.len(), |i: int| (messages[i].role@, messages[i].content@))
}

/// The model of a [`ChatCompletionsRequest`].
#[verifier::ext_equal]
pub struct ChatRequest {
    pub model: Seq<char>,
    pub messages: Seq<(Seq<char>, Seq<char>)>,
    pub response_format: Seq<char>,
    pub stream: bool,
}

impl View for ChatCompletionsRequest {
    type V = ChatRequest;

    open spec fn view(&self) -> ChatRequest {
        ChatRequest {
            model: self.model@,
            messages: message_views(self.messages@),
            response_format: self.response_format@,
            stream: self.stream,
        }
    }
}

/// The request that puts the instructions before what the user says, and asks for one JSON object.
pub open spec fn chat_request(
    model: Seq<char>,
    instructions: Seq<char>,
    content: Seq<char>,
) -> ChatRequest {
    ChatRequest {
        model,
        messages: seq![("system"@, instructions), ("user"@, content)],
        response_format: "json_object"@,
        stream: false,
    }
}

/// The request that puts the instructions before what the user says, and asks for one JSON object.
pub fn chat_completions_request(model: &str, instructions: &str, user_content: &str) -> (r:
    ChatCompletionsRequest)
    ensures
        r@ == chat_request(model@, instructions@, user_content@),
{
    let messages: Vec<ChatCompletionMessage> = vec![
        ChatCompletionMessage { role: "system", content: instructions.to_owned() },
        ChatCompletionMessage { role: "user", content: user_content.to_owned() },
    ];
    proof {
        assert(message_views(messages@) =~= seq![
            ("system"@, instructions@),
            ("user"@, user_content@),
        ]);
    }
    ChatCompletionsRequest {
        model: model.to_owned(),
        messages,
        response_format: "json_object",
        stream: false,
    }
}

/// A request to the model of the session.
#[derive(Clone, Debug, PartialEq, Eq)]
pub struct Prompt {
    pub input: Vec<ChatCompletionMessage>,
    /// The names of the tools that the model may use.
    pub tools: Vec<String>,
    pub parallel_tool_calls: bool,
    pub tool_choice: &'static str,
    pub store: bool,
    pub base_instructions: String,
    pub personality: Option<&'static str>,
    pub output_schema: OutputSchema,
    pub output_schema_strict: bool,
    /// How hard the model thinks; `None` leaves that to the model.
    pub reasoning_effort: Option<&'static str>,
    /// How the model sums up what it thought; `None` for no summary.
    pub reasoning_summary: Option<&'static str>,
}

/// The model of a [`Prompt`].
#[verifier::ext_equal]
pub struct SessionPrompt {
    pub input: Seq<(Seq<char>, Seq<char>)>,
    pub tools: Seq<Seq<char>>,
    pub parallel_tool_calls: bool,
    pub tool_choice: Seq<char>,
    pub store: bool,
    pub base_instructions: Seq<char>,
    pub personality: Option<Seq<char>>,
    pub output_schema: OutputSchema,
    pub output_schema_strict: bool,
    pub reasoning_effort: Option<Seq<char>>,
    pub reasoning_summary: Option<Seq<char>>,
}

impl View for Prompt {
    type V = SessionPrompt;

    open spec fn view(&self) -> SessionPrompt {
        SessionPrompt {
            input: message_views(self.input@),
            tools: texts(self.tools@),
            parallel_tool_calls: self.parallel_tool_calls,
            tool_choice: self.tool_choice@,
            store: self.store,
            base_instructions: self.base_instructions@,
            personality: optional_text(self.personality),
            output_schema: self.output_schema,
            output_schema_strict: self.output_schema_strict,
            reasoning_effort: optional_text(self.reasoning_effort),
            reasoning_summary: optional_text(self.reasoning_summary),
        }
    }
}

/// The request with these instructions, with no tool, no personality and nothing stored, for an
/// answer that strictly has this form, thought about with medium effort and without a summary of
/// that.
pub open spec fn session_prompt(
    instructions: Seq<char>,
    content: Seq<char>,
    output_schema: OutputSchema,
) -> SessionPrompt {
    SessionPrompt {
        input: seq![("user"@, content)],
        tools: Seq::empty(),
        parallel_tool_calls: false,
        tool_choice: "none"@,
        store: false,
        base_instructions: instructions,
        personality: None,
        output_schema,
        output_schema_strict: true,
        reasoning_effort: Some("medium"@),
        reasoning_summary: None,
    }
}

fn prompt_for_session(
    instructions: &str,
    user_content: String,
    output_schema: OutputSchema,
) -> (r: Prompt)
    ensures
        r@ == session_prompt(instructions@, user_content@, output_schema),
{
    let mut input: Vec<ChatCompletionMessage> = Vec::new();
    input.push(ChatCompletionMessage { role: "user", content: user_content });
    let tools: Vec<String> = Vec::new();
    proof {
        assert(message_views(input@) =~= seq![("user"@, user_content@)]);
        assert(texts(tools@) =~= Seq::<Seq<char>>::empty());
    }
    Prompt {
        input,
        tools,
        parallel_tool_calls: false,
        tool_choice: "none",
        store: false,
        base_instructions: instructions.to_owned(),
        personality: None,
        output_schema,
        output_schema_strict: true,
        reasoning_effort: Some("medium"),
        reasoning_summary: None,
    }
}

/// Whom to ask, and how the answer is read: as it is, or as an enhancement.
pub enum EnhancePlan {
    Endpoint { request: ChatCompletionsRequest, raw_json: bool },
    Session { prompt: Prompt, raw_json: bool },
}

/// The model of an [`EnhancePlan`].
pub enum Plan {
    Endpoint { request: ChatRequest, raw_json: bool },
    Session { prompt: SessionPrompt, raw_json: bool },
}

impl View for EnhancePlan {
    type V = Plan;

    open spec fn view(&self) -> Plan {
        match self {
            EnhancePlan::Endpoint { request, raw_json } => Plan::Endpoint {
                request: request@,
                raw_json: *raw_json,
            },
            EnhancePlan::Session { prompt, raw_json } => Plan::Session {
                prompt: prompt@,
                raw_json: *raw_json,
            },
        }
    }
}

/// The plan for these instructions: a configured model is asked at its endpoint, else the session
/// is asked.
pub open spec fn plan_with(
    model: Option<Seq<char>>,
    instructions: Seq<char>,
    content: Seq<char>,
    output_schema: OutputSchema,
    raw_json: bool,
) -> Plan {
    match model {
        Some(model) => Plan::Endpoint {
            request: chat_request(model, instructions, content),
            raw_json,
        },
        None => Plan::Session {
            prompt: session_prompt(instructions, content, output_schema),
            raw_json,
        },
    }
}

/// The instructions for an enhancement, with project context or without.
pub open spec fn enhancement_instructions(with_context: bool) -> Seq<char> {
    if with_context {
        ACE_PROMPT_PILOT_INSTRUCTIONS@
    } else {
        PROMPT_PILOT_INSTRUCTIONS@
    }
}

/// How a prompt is enhanced with this context.
pub open spec fn planned(
    model: Option<Seq<char>>,
    prompt: Seq<char>,
    context: Option<Seq<char>>,
) -> Plan {
    match hidden_request(context, prompt) {
        Some(request) => plan_with(
            model,
            request.instructions,
            request.user_content,
            request.output_schema,
            true,
        ),
        None => plan_with(
            model,
            enhancement_instructions(context is Some),
            user_content(prompt, context),
            OutputSchema::PromptEnhancement,
            false,
        ),
    }
}

/// Whom a prompt is sent to: a configured model is asked at its endpoint under its own name.
/// Without one the session is asked, whatever the context is: it gets one message of the user and
/// no tool, stores nothing, and thinks with medium effort without summing that up.
pub proof fn law_whom_to_ask(
    model: Option<Seq<char>>,
    prompt: Seq<char>,
    context: Option<Seq<char>>,
)
    ensures
        model matches Some(name) ==> (planned(model, prompt, context) matches Plan::Endpoint {
            request,
            ..
        } && request.model == name),
        model is None ==> (planned(model, prompt, context) matches Plan::Session { prompt: asked, .. }
            && asked.input.len() == 1 && asked.input[0].0 == "user"@ && asked.tools.len() == 0
            && asked.tool_choice == "none"@ && !asked.store && asked.reasoning_effort == Some(
            "medium"@,
        ) && asked.reasoning_summary is None),
{
}

/// The configured model.
pub open spec fn configured_model(config: PromptPilotConfig) -> Option<Seq<char>> {
    match config.model {
        Some(model) => Some(model@),
        None => None,
    }
}

/// How a prompt is enhanced with this context.
pub fn plan_enhancement(
    config: &PromptPilotConfig,
    original_prompt: &str,
    context_pack_json: Option<&str>,
) -> (r: EnhancePlan)
    ensures
        r@ == planned(
            configured_model(*config),
            original_prompt@,
            optional_text(context_pack_json),
        ),
{
    if let Some(hidden) = ace_hidden_prompt_request(context_pack_json, original_prompt) {
        return match &config.model {
            Some(model) => EnhancePlan::Endpoint {
                request: chat_completions_request(
                    model.as_str(),
                    hidden.instructions,
                    hidden.user_content.as_str(),
                ),
                raw_json: true,
            },
            None => EnhancePlan::Session {
                prompt: prompt_for_session(
                    hidden.instructions,
                    hidden.user_content,
                    hidden.output_schema,
                ),
                raw_json: true,
            },
        };
    }
    let content = prompt_user_content(original_prompt, context_pack_json);
    let instructions = if context_pack_json.is_some() {
        ACE_PROMPT_PILOT_INSTRUCTIONS
    } else {
        PROMPT_PILOT_INSTRUCTIONS
    };
    match &config.model {
        Some(model) => EnhancePlan::Endpoint {
            request: chat_completions_request(model.as_str(), instructions, content.as_str()),
            raw_json: false,
        },
        None => EnhancePlan::Session {
            prompt: prompt_for_session(instructions, content, OutputSchema::PromptEnhancement),
            raw_json: false,
        },
    }
}

/// Whoever is asked is asked the same: the instructions and the message of the user for a
/// configured model are those for the session, and so is how the answer is read. The configured
/// model gets exactly these two messages, and is asked for one JSON object in one piece.
pub proof fn law_same_question(model: Seq<char>, prompt: Seq<char>, context: Option<Seq<char>>)
    ensures
        ({
            let there = planned(Some(model), prompt, context);
            let here = planned(None, prompt, context);
            &&& there matches Plan::Endpoint { request, raw_json } && here matches Plan::Session {
                prompt: asked,
                raw_json: raw,
            } && ({
                &&& request.model == model
                &&& request.messages.len() == 2
                &&& request.messages[0] == ("system"@, asked.base_instructions)
                &&& request.messages[1] == asked.input[0]
                &&& request.response_format == "json_object"@
                &&& !request.stream
                &&& asked.input.len() == 1
                &&& asked.input[0].0 == "user"@
                &&& asked.output_schema_strict
                &&& !asked.parallel_tool_calls
                &&& asked.personality is None
                &&& raw_json == raw
                &&& has_text(asked.input[0].1, prompt)
            })
        }),
{
    let content = match hidden_request(context, prompt) {
        Some(request) => request.user_content,
        None => user_content(prompt, context),
    };
    let head = "Original prompt:\n"@;
    let rest = content.skip((head + prompt).len() as int);
    assert(head + prompt + rest =~= content);
    lemma_has_middle(head, prompt, rest);
}

/// What the user's message holds where no part of gathering context is asked for: the prompt, and
/// after it the whole context pack where there is one. The answer is then an enhancement, and the
/// instructions are those for a prompt with context exactly where there is one.
pub proof fn law_enhancement_question(
    model: Option<Seq<char>>,
    prompt: Seq<char>,
    context: Option<Seq<char>>,
)
    requires
        context matches Some(json) ==> !begins_with(
            json,
            "__PROMPT_PILOT_ACE_CONVERSATION_CONTEXT__\n"@,
        ) && !begins_with(json, "__PROMPT_PILOT_ACE_AGENT_LOOP__\n"@) && !begins_with(
            json,
            "__PROMPT_PILOT_ACE_GUARDRAIL__\n"@,
        ),
    ensures
        ({
            let (content, instructions) = match planned(model, prompt, context) {
                Plan::Endpoint { request, .. } => (request.messages[1].1, request.messages[0].1),
                Plan::Session { prompt: asked, .. } => (
                    asked.input[0].1,
                    asked.base_instructions,
                ),
            };
            &&& context is None ==> content == "Original prompt:\n"@ + prompt && instructions
                == PROMPT_PILOT_INSTRUCTIONS@
            &&& context matches Some(json) ==> content == "Original prompt:\n"@ + prompt
                + "\n\nContext Pack JSON:\n"@ + json && instructions
                == ACE_PROMPT_PILOT_INSTRUCTIONS@ && has_text(content, json)
            &&& match planned(model, prompt, context) {
                Plan::Endpoint { raw_json, .. } => !raw_json,
                Plan::Session { prompt: asked, raw_json } => !raw_json && asked.output_schema
                    == OutputSchema::PromptEnhancement,
            }
        }),
{
    if let Some(json) = context {
        let before = "Original prompt:\n"@ + prompt + "\n\nContext Pack JSON:\n"@;
        lemma_has_middle(before, json, Seq::empty());
        assert(before + json + Seq::<char>::empty() =~= before + json);
    }
}

/// What is asked for a marked context: the prompt and the very JSON that was marked, under the
/// instructions and for the form of answer that belong to the mark, and the answer is read as it
/// is.
pub proof fn law_hidden_questions(model: Option<Seq<char>>, prompt: Seq<char>, json: Seq<char>)
    ensures
        ({
            let a = planned(
                model,
                prompt,
                Some("__PROMPT_PILOT_ACE_CONVERSATION_CONTEXT__\n"@ + json),
            );
            let b = planned(model, prompt, Some("__PROMPT_PILOT_ACE_AGENT_LOOP__\n"@ + json));
            let c = planned(model, prompt, Some("__PROMPT_PILOT_ACE_GUARDRAIL__\n"@ + json));
            &&& asks(
                a,
                ACE_CONVERSATION_DISTILLATION_INSTRUCTIONS@,
                "Original prompt:\n"@ + prompt + "\n\nACE conversation context JSON:\n"@ + json,
                OutputSchema::ConversationDistillation,
            )
            &&& asks(
                b,
                ACE_AGENT_LOOP_INSTRUCTIONS@,
                "Original prompt:\n"@ + prompt + "\n\nACE state JSON:\n"@ + json,
                OutputSchema::AgentStep,
            )
            &&& asks(
                c,
                ACE_GUARDRAIL_INSTRUCTIONS@,
                "Original prompt:\n"@ + prompt + "\n\nACE guardrail review JSON:\n"@ + json,
                OutputSchema::GuardrailReview,
            )
        }),
{
    law_marks_are_recognised(prompt, json);
}

/// Whether a plan asks for an answer as it is with these instructions and this message of the
/// user; only the session is told the form of the answer.
pub open spec fn asks(
    plan: Plan,
    instructions: Seq<char>,
    content: Seq<char>,
    output_schema: OutputSchema,
) -> bool {
    match plan {
        Plan::Endpoint { request, raw_json } => {
            &&& raw_json
            &&& request.messages.len() == 2
            &&& request.messages[0].1 == instructions
            &&& request.messages[1].1 == content
        },
        Plan::Session { prompt, raw_json } => {
            &&& raw_json
            &&& prompt.base_instructions == instructions
            &&& prompt.input[0].1 == content
            &&& prompt.output_schema == output_schema
        },
    }
}

/// The form of each answer: an object with exactly these properties, all of them required.
pub proof fn law_answer_forms()
    ensures
        is_closed_object(
            OutputSchema::PromptEnhancement.tree(),
            seq!["likely_understanding"@, "enhanced_prompt"@, "changed"@],
        ),
        is_closed_object(
            OutputSchema::GuardrailReview.tree(),
            seq!["status"@, "reason"@, "likely_understanding"@, "enhanced_prompt"@],
        ),
        is_closed_object(
            OutputSchema::AgentStep.tree(),
            seq![
                "likely_understanding"@,
                "action"@,
                "reason"@,
                "queries"@,
                "paths"@,
                "enhanced_prompt"@,
                "changed"@,
                "context_used"@,
                "unresolved_questions"@,
            ],
        ),
        is_closed_object(
            OutputSchema::ConversationDistillation.tree(),
            seq![
                "likely_understanding"@,
                "concise_summary"@,
                "hard_constraints"@,
                "prior_decisions"@,
                "mentioned_paths"@,
                "search_hints"@,
                "uncertainties"@,
            ],
        ),
{
    lemma_schema_keys();
    assert forall|name: Seq<char>| #[trigger]
        enhancement_properties().dom().contains(name) <==> enhancement_names().contains(name) by {
        law_schemas_are_closed(name);
    }
    assert forall|name: Seq<char>| #[trigger]
        distillation_properties().dom().contains(name) <==> distillation_names().contains(name) by {
        law_schemas_are_closed(name);
    }
    assert forall|name: Seq<char>| #[trigger]
        step_properties().dom().contains(name) <==> step_names().contains(name) by {
        law_schemas_are_closed(name);
    }
    assert forall|name: Seq<char>| #[trigger]
        review_properties().dom().contains(name) <==> review_names().contains(name) by {
        law_schemas_are_closed(name);
    }
}

proof fn lemma_schema_keys()
    ensures
        "type"@ != "additionalProperties"@,
        "type"@ != "properties"@,
        "type"@ != "required"@,
        "additionalProperties"@ != "properties"@,
        "additionalProperties"@ != "required"@,
        "properties"@ != "required"@,
{
    reveal_strlit("type");
    reveal_strlit("additionalProperties");
    reveal_strlit("properties");
    reveal_strlit("required");
    assert("type"@.len() == 4);
    assert("additionalProperties"@.len() == 20);
    assert("properties"@.len() == 10);
    assert("required"@.len() == 8);
}

/// Whether a schema is that of an object with these properties, all of them required, and no
/// others.
pub open spec fn is_closed_object(tree: JsonTree, names: Seq<Seq<char>>) -> bool {
    &&& member(tree, "type"@) == Some(JsonTree::Text("object"@))
    &&& member(tree, "additionalProperties"@) == Some(JsonTree::Bool(false))
    &&& member(tree, "required"@) matches Some(JsonTree::Array(items)) && items.len() == names.len()
        && forall|i: int| 0 <= i < names.len() ==> #[trigger] items[i] == JsonTree::Text(names[i])
    &&& member(tree, "properties"@) matches Some(JsonTree::Object(properties)) && forall|
        name: Seq<char>,
    | #[trigger] properties.dom().contains(name) <==> names.contains(name)
}

} // verus!
