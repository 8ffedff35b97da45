use prompt_pilot::endpoint::{
    api_key_variable, base_url_text, chat_completions_output, chat_completions_url,
    configured_chat_completions_url, message_content, openai_compatible_status_error,
    prompt_pilot_api_key, status_error_message,
};
use prompt_pilot::instructions::{
    ACE_AGENT_LOOP_INSTRUCTIONS, ACE_CONVERSATION_DISTILLATION_INSTRUCTIONS,
    ACE_GUARDRAIL_INSTRUCTIONS, ACE_PROMPT_PILOT_INSTRUCTIONS, PROMPT_PILOT_INSTRUCTIONS,
};
use prompt_pilot::model_response::{
    likely_understanding_in, parse_prompt_enhancement_json, parse_prompt_enhancement_output,
    parse_raw_json, parse_raw_json_output, response_item_text, ContentItem, ModelPromptEnhancement,
    PromptEnhancement, ResponseEvent, ResponseItem,
};
use prompt_pilot::requests::{
    ace_agent_loop_context, ace_conversation_context, ace_guardrail_context,
    ace_hidden_prompt_request, effective_ace_max_iterations, plan_enhancement,
    prompt_user_content, ChatCompletionMessage, EnhancePlan, OutputSchema, Prompt,
    PromptPilotConfig,
};
use prompt_pilot::schemas::{
    ace_agent_step_schema, ace_conversation_distillation_schema, ace_guardrail_review_schema,
    prompt_enhancement_schema,
};

/// Reads an enhancement as a JSON object with three members.
fn read_enhancement(raw: &str) -> Result<ModelPromptEnhancement, String> {
    let value: serde_json::Value =
        serde_json::from_str(raw).map_err(|err: serde_json::Error| err.to_string())?;
    Ok(ModelPromptEnhancement {
        likely_understanding: value["likely_understanding"].as_str().unwrap_or("").to_string(),
        enhanced_prompt: value["enhanced_prompt"].as_str().unwrap_or("").to_string(),
        changed: value["changed"].as_bool().unwrap_or(false),
    })
}

fn output(text: &str) -> ResponseEvent {
    ResponseEvent::OutputItemDone {
        item: ResponseItem::Message {
            content: vec![ContentItem::OutputText {
                text: text.to_string(),
            }],
        },
    }
}

#[test]
fn parses_prompt_enhancement_json() {
    let text = r#"{"likely_understanding":"Codex should respond to the greeting.","enhanced_prompt":"hello","changed":false}"#;
    let events = vec![output(text), ResponseEvent::Completed];

    let raw = parse_prompt_enhancement_output(&events).expect("enhancement should be complete");
    let enhancement = parse_prompt_enhancement_json(read_enhancement(&raw), "hello")
        .expect("enhancement should parse");

    assert_eq!(
        enhancement,
        PromptEnhancement {
            likely_understanding: "Codex should respond to the greeting.".to_string(),
            enhanced_prompt: "hello".to_string(),
            changed: false,
        }
    );
}

#[test]
fn openai_compatible_chat_request_uses_configured_model() {
    let text = r#"{"likely_understanding":"Codex should fix the login bug.","enhanced_prompt":"Investigate and fix the login bug in this codebase.","changed":true}"#;
    let config = PromptPilotConfig {
        model: Some("prompt-optimizer".to_string()),
        base_url: Some("http://127.0.0.1:8080/v1".to_string()),
        api_key_env: Some(String::new()),
        ..PromptPilotConfig::default()
    };

    assert_eq!(
        configured_chat_completions_url(&config),
        Ok("http://127.0.0.1:8080/v1/chat/completions".to_string())
    );
    assert_eq!(prompt_pilot_api_key(&config, None), Ok(None));
    let user_content = prompt_user_content("fix login bug", None);
    let request = match plan_enhancement(&config, "fix login bug", None) {
        EnhancePlan::Endpoint { request, raw_json } => {
            assert!(!raw_json);
            request
        }
        EnhancePlan::Session { .. } => panic!("the endpoint should be asked"),
    };
    assert_eq!(request.model, "prompt-optimizer");
    assert_eq!(request.messages.len(), 2);
    assert_eq!(request.messages[0].role, "system");
    assert_eq!(request.messages[0].content, PROMPT_PILOT_INSTRUCTIONS);
    assert_eq!(request.messages[1].role, "user");
    assert_eq!(request.messages[1].content, "Original prompt:\nfix login bug");
    assert_eq!(request.messages[1].content, user_content);
    assert_eq!(request.response_format, "json_object");
    assert!(!request.stream);

    let raw = chat_completions_output(200, "", Ok(vec![Some(text.to_string())]))
        .expect("content should be found");
    let enhancement = parse_prompt_enhancement_json(read_enhancement(&raw), "fix login bug")
        .expect("enhancement should parse");

    assert_eq!(
        enhancement,
        PromptEnhancement {
            likely_understanding: "Codex should fix the login bug.".to_string(),
            enhanced_prompt: "Investigate and fix the login bug in this codebase.".to_string(),
            changed: true,
        }
    );
}

#[test]
fn prompt_instructions_require_original_prompt_language() {
    assert!(PROMPT_PILOT_INSTRUCTIONS.contains("same primary language"));
    assert!(PROMPT_PILOT_INSTRUCTIONS.contains("Do not translate"));
    assert!(ACE_PROMPT_PILOT_INSTRUCTIONS.contains("Context Pack"));
    assert!(ACE_PROMPT_PILOT_INSTRUCTIONS.contains("Do not produce an implementation plan"));

    let schema = prompt_enhancement_schema();
    assert_eq!(
        schema["properties"]["likely_understanding"]["description"],
        "How Codex would likely interpret the original prompt if submitted unchanged. Use the same primary language as the original prompt."
    );
    assert_eq!(
        schema["properties"]["enhanced_prompt"]["description"],
        "The refined prompt, written as the user. Use the same primary language as the original prompt unless the user explicitly asks for translation or a different language."
    );
}

fn same_json(value: &serde_json::Value, text: &str) -> bool {
    let wanted: serde_json::Value = serde_json::from_str(text).expect("json");
    *value == wanted
}

#[test]
fn schemas_are_exact() {
    assert!(same_json(
        &ace_conversation_distillation_schema(),
        r#"{
            "type": "object",
            "additionalProperties": false,
            "properties": {
                "likely_understanding": {"type": "string"},
                "concise_summary": {"type": "string"},
                "hard_constraints": {"type": "array", "items": {"type": "string"}},
                "prior_decisions": {"type": "array", "items": {"type": "string"}},
                "mentioned_paths": {"type": "array", "items": {"type": "string"}},
                "search_hints": {"type": "array", "items": {"type": "string"}},
                "uncertainties": {"type": "array", "items": {"type": "string"}}
            },
            "required": ["likely_understanding", "concise_summary", "hard_constraints",
                "prior_decisions", "mentioned_paths", "search_hints", "uncertainties"]
        }"#
    ));
    assert!(same_json(
        &ace_agent_step_schema(),
        r#"{
            "type": "object",
            "additionalProperties": false,
            "properties": {
                "likely_understanding": {"type": "string"},
                "action": {"type": "string", "enum": ["search_files", "read_small_snippets", "finish"]},
                "reason": {"type": "string"},
                "queries": {"type": "array", "items": {"type": "string"}},
                "paths": {"type": "array", "items": {"type": "string"}},
                "enhanced_prompt": {"type": "string"},
                "changed": {"type": "boolean"},
                "context_used": {"type": "array", "items": {"type": "string"}},
                "unresolved_questions": {"type": "array", "items": {"type": "string"}}
            },
            "required": ["likely_understanding", "action", "reason", "queries", "paths",
                "enhanced_prompt", "changed", "context_used", "unresolved_questions"]
        }"#
    ));
    assert!(same_json(
        &ace_guardrail_review_schema(),
        r#"{
            "type": "object",
            "additionalProperties": false,
            "properties": {
                "status": {"type": "string", "enum": ["pass", "repair", "fail"]},
                "reason": {"type": "string"},
                "likely_understanding": {"type": "string"},
                "enhanced_prompt": {"type": "string"}
            },
            "required": ["status", "reason", "likely_understanding", "enhanced_prompt"]
        }"#
    ));
    assert_eq!(OutputSchema::PromptEnhancement.schema(), prompt_enhancement_schema());
    assert_eq!(prompt_enhancement_schema()["properties"]["changed"]["type"], "boolean");
}

fn session_prompt(instructions: &str, content: &str, output_schema: OutputSchema) -> Prompt {
    Prompt {
        input: vec![ChatCompletionMessage {
            role: "user",
            content: content.to_string(),
        }],
        tools: Vec::new(),
        parallel_tool_calls: false,
        tool_choice: "none",
        store: false,
        base_instructions: instructions.to_string(),
        personality: None,
        output_schema,
        output_schema_strict: true,
        reasoning_effort: Some("medium"),
        reasoning_summary: None,
    }
}

#[test]
fn marked_contexts_are_hidden_requests() {
    let json = "{\"a\": 1}";
    let cases = [
        (
            ace_conversation_context(json),
            ACE_CONVERSATION_DISTILLATION_INSTRUCTIONS,
            "Original prompt:\nfix\n\nACE conversation context JSON:\n{\"a\": 1}",
            OutputSchema::ConversationDistillation,
        ),
        (
            ace_agent_loop_context(json),
            ACE_AGENT_LOOP_INSTRUCTIONS,
            "Original prompt:\nfix\n\nACE state JSON:\n{\"a\": 1}",
            OutputSchema::AgentStep,
        ),
        (
            ace_guardrail_context(json),
            ACE_GUARDRAIL_INSTRUCTIONS,
            "Original prompt:\nfix\n\nACE guardrail review JSON:\n{\"a\": 1}",
            OutputSchema::GuardrailReview,
        ),
    ];
    for (context, instructions, content, schema) in cases {
        let request = ace_hidden_prompt_request(Some(&context), "fix").expect("hidden request");
        assert_eq!(request.instructions, instructions);
        assert_eq!(request.user_content, content);
        assert_eq!(request.output_schema, schema);
        match plan_enhancement(&PromptPilotConfig::default(), "fix", Some(&context)) {
            EnhancePlan::Session { prompt, raw_json } => {
                assert!(raw_json);
                assert_eq!(prompt, session_prompt(instructions, content, schema));
            }
            EnhancePlan::Endpoint { .. } => panic!("the session should be asked"),
        }
    }
    assert!(ace_hidden_prompt_request(Some(json), "fix").is_none());
    assert!(ace_hidden_prompt_request(None, "fix").is_none());
}

#[test]
fn context_packs_go_with_the_prompt() {
    match plan_enhancement(&PromptPilotConfig::default(), "fix", Some("{}")) {
        EnhancePlan::Session { prompt, raw_json } => {
            assert!(!raw_json);
            assert_eq!(
                prompt,
                session_prompt(
                    ACE_PROMPT_PILOT_INSTRUCTIONS,
                    "Original prompt:\nfix\n\nContext Pack JSON:\n{}",
                    OutputSchema::PromptEnhancement,
                )
            );
        }
        EnhancePlan::Endpoint { .. } => panic!("the session should be asked"),
    }
}

#[test]
fn the_session_is_asked_with_medium_effort() {
    match plan_enhancement(&PromptPilotConfig::default(), "fix login bug", None) {
        EnhancePlan::Session { prompt, raw_json } => {
            assert!(!raw_json);
            assert_eq!(prompt.reasoning_effort, Some("medium"));
            assert_eq!(prompt.reasoning_summary, None);
            assert_eq!(
                prompt,
                session_prompt(
                    PROMPT_PILOT_INSTRUCTIONS,
                    "Original prompt:\nfix login bug",
                    OutputSchema::PromptEnhancement,
                )
            );
        }
        EnhancePlan::Endpoint { .. } => panic!("the session should be asked"),
    }
}

#[test]
fn configuration_defaults() {
    let config = PromptPilotConfig::default();
    assert_eq!(config.model, None);
    assert!(!config.ace_default_enabled);
    assert_eq!(config.ace_max_iterations, 5);
    assert_eq!(
        configured_chat_completions_url(&config),
        Ok("https://api.openai.com/v1/chat/completions".to_string())
    );
    assert_eq!(api_key_variable(&config), "OPENAI_API_KEY");
    assert_eq!(effective_ace_max_iterations(None), 5);
    assert_eq!(effective_ace_max_iterations(Some(0)), 1);
    assert_eq!(effective_ace_max_iterations(Some(20)), 20);
    assert_eq!(effective_ace_max_iterations(Some(21)), 20);
}

#[test]
fn addresses_are_checked() {
    assert_eq!(base_url_text(" http://x/v1 "), Some("http://x/v1/".to_string()));
    assert_eq!(base_url_text("http://x/v1/"), Some("http://x/v1/".to_string()));
    assert_eq!(
        chat_completions_url(" \n"),
        Err("prompt_pilot.base_url must not be empty".to_string())
    );
    assert_eq!(
        chat_completions_url("localhost"),
        Err("prompt_pilot.base_url must be a valid URL: relative URL without a base".to_string())
    );
    let url = chat_completions_url("HTTP://Example.com/v1/").expect("url");
    assert_eq!(url.as_str(), "http://example.com/v1/chat/completions");
    assert!(chat_completions_url("data:text").is_err());
}

#[test]
fn keys_are_checked() {
    let config = PromptPilotConfig {
        api_key_env: Some("KEY".to_string()),
        ..PromptPilotConfig::default()
    };
    assert_eq!(
        prompt_pilot_api_key(&config, Some(" k ".to_string())),
        Ok(Some("k".to_string()))
    );
    assert_eq!(
        prompt_pilot_api_key(&config, Some(" ".to_string())),
        Err("PromptPilot OpenAI-compatible API key from $KEY is empty".to_string())
    );
    assert_eq!(
        prompt_pilot_api_key(&config, None),
        Err("PromptPilot OpenAI-compatible model requires $KEY; set prompt_pilot.api_key_env = \"\" to omit Authorization".to_string())
    );
}

#[test]
fn answers_of_an_endpoint_are_checked() {
    assert_eq!(
        openai_compatible_status_error(404, " "),
        "PromptPilot OpenAI-compatible request failed with HTTP 404 Not Found"
    );
    assert_eq!(
        openai_compatible_status_error(799, " no \n"),
        "PromptPilot OpenAI-compatible request failed with HTTP 799 <unknown status code>: no"
    );
    assert_eq!(
        status_error_message("500", "x"),
        "PromptPilot OpenAI-compatible request failed with HTTP 500: x"
    );
    assert_eq!(
        chat_completions_output(500, "down", Err("unread".to_string())),
        Err("PromptPilot OpenAI-compatible request failed with HTTP 500 Internal Server Error: down".to_string())
    );
    assert_eq!(
        chat_completions_output(200, "{", Err("EOF".to_string())),
        Err("PromptPilot OpenAI-compatible response was not valid JSON: EOF".to_string())
    );
    let missing =
        "PromptPilot OpenAI-compatible response did not include message content".to_string();
    assert_eq!(message_content(&Vec::new()), Err(missing.clone()));
    assert_eq!(message_content(&vec![None, Some("x".to_string())]), Err(missing.clone()));
    assert_eq!(message_content(&vec![Some(" ".to_string())]), Err(missing));
    assert_eq!(message_content(&vec![Some(" x ".to_string())]), Ok("x".to_string()));
}

#[test]
fn raw_json_is_handed_on() {
    let enhancement =
        parse_raw_json(" {\"likely_understanding\": \" do it \", \"b\": [1, null]} ").expect("json");
    assert_eq!(enhancement.likely_understanding, "do it");
    assert_eq!(enhancement.enhanced_prompt, "{\"b\":[1,null],\"likely_understanding\":\" do it \"}");
    assert!(enhancement.changed);
    let enhancement = parse_raw_json("[]").expect("json");
    assert_eq!(enhancement.likely_understanding, "PromptPilot ACE is selecting context.");
    assert_eq!(enhancement.enhanced_prompt, "[]");
    assert_eq!(
        parse_raw_json("{").err(),
        Some("PromptPilot ACE agent response was not valid JSON: EOF while parsing an object at line 1 column 1".to_string())
    );
    let value: serde_json::Value =
        serde_json::from_str("{\"likely_understanding\": 3}").expect("json");
    assert_eq!(likely_understanding_in(&value), "PromptPilot ACE is selecting context.");
}

#[test]
fn streams_are_read_up_to_their_completion() {
    let delta = |text: &str| ResponseEvent::OutputTextDelta {
        delta: text.to_string(),
    };
    assert_eq!(
        parse_prompt_enhancement_output(&vec![output("x")]),
        Err("prompt enhancement stream closed before response.completed".to_string())
    );
    assert_eq!(
        parse_prompt_enhancement_output(&vec![output(" "), ResponseEvent::Completed]),
        Err("prompt enhancement response was empty".to_string())
    );
    assert_eq!(
        parse_prompt_enhancement_output(&vec![
            delta("a"),
            ResponseEvent::Other,
            delta("b "),
            ResponseEvent::Completed,
            delta("c"),
        ]),
        Ok("ab".to_string())
    );
    assert_eq!(
        parse_prompt_enhancement_output(&vec![
            delta("a"),
            output("x"),
            output("y"),
            ResponseEvent::Completed
        ]),
        Ok("xy".to_string())
    );
    assert_eq!(
        parse_raw_json_output(&Vec::new()).err(),
        Some("PromptPilot ACE agent stream closed before response.completed".to_string())
    );
    assert_eq!(
        parse_raw_json_output(&vec![ResponseEvent::Completed]).err(),
        Some("PromptPilot ACE agent response was empty".to_string())
    );
    let enhancement = parse_raw_json_output(&vec![delta("{}"), ResponseEvent::Completed])
        .expect("json");
    assert_eq!(enhancement.enhanced_prompt, "{}");
    let item = ResponseItem::Message {
        content: vec![
            ContentItem::InputText {
                text: "a".to_string(),
            },
            ContentItem::InputImage,
            ContentItem::OutputText {
                text: "b".to_string(),
            },
        ],
    };
    assert_eq!(response_item_text(&item), "ab");
    assert_eq!(response_item_text(&ResponseItem::Other), "");
}

#[test]
fn enhancements_need_both_texts() {
    let parsed = |understanding: &str, prompt: &str, changed: bool| {
        parse_prompt_enhancement_json(
            Ok(ModelPromptEnhancement {
                likely_understanding: understanding.to_string(),
                enhanced_prompt: prompt.to_string(),
                changed,
            }),
            "fix",
        )
    };
    let empty = Some("prompt enhancement response must include non-empty fields".to_string());
    assert_eq!(parsed(" ", "x", true).err(), empty);
    assert_eq!(parsed("x", "\n", true).err(), empty);
    assert!(!parsed("x", " fix ", true).expect("enhancement").changed);
    assert!(!parsed("x", "other", false).expect("enhancement").changed);
    assert!(parsed("x", "other", true).expect("enhancement").changed);
    assert_eq!(
        parse_prompt_enhancement_json(Err("bad".to_string()), "fix").err(),
        Some("prompt enhancement response was not valid JSON: bad".to_string())
    );
}
