use prompt_pilot::app_requests::AppRequest;
use prompt_pilot::conversation::{lines_to_plain_text, prompt_pilot_conversation_context};
use prompt_pilot::feedback::{
    build_feedback_upload_params, handle_feedback_submitted, handle_feedback_thread_event,
    Enqueued, FeedbackCell, FeedbackRoute, FeedbackThreadEvent, ThreadBufferedEvent,
    ThreadEventStore,
};
use prompt_pilot::mcp_inventory::{
    clear_committed_mcp_inventory_loading, handle_mcp_inventory_result,
    mcp_inventory_maps_from_statuses, McpAuthStatus, McpInventoryOutcome, McpServerStatus,
    McpStatusPager,
};
use prompt_pilot::name_map::NameMap;
use prompt_pilot::plugins::{
    hide_cli_only_plugin_marketplaces, hooks_needing_review, marketplace_add_source_for_request,
    resolve_path, write_hook_enabled, write_hook_trust, write_plugin_enabled, HookTrustStatus,
    HooksEntry, PendingWrites, PluginMarketplaceEntry,
};
use std::path::PathBuf;

#[test]
fn marketplace_add_source_for_request_resolves_relative_local_paths() {
    let cwd = PathBuf::from("/workspace/project");
    let cwd_text = "/workspace/project";

    let resolved = marketplace_add_source_for_request(cwd_text, "./marketplace".to_string());
    assert!(std::path::Path::new(&resolved).is_absolute());
    assert_eq!(resolved, cwd.join("marketplace").display().to_string());
    assert_eq!(
        marketplace_add_source_for_request(cwd_text, "./marketplace#main".to_string()),
        format!("{}#main", cwd.join("marketplace").display())
    );
    assert_eq!(
        marketplace_add_source_for_request(cwd_text, "owner/repo".to_string()),
        "owner/repo"
    );
    assert_eq!(
        marketplace_add_source_for_request(cwd_text, "~/marketplace".to_string()),
        "~/marketplace"
    );
}

#[test]
fn relative_sources_go_up_and_keep_their_version() {
    let source = |text: &str| marketplace_add_source_for_request("/a/b", text.to_string());
    assert_eq!(source("."), "/a/b");
    assert_eq!(source(".."), "/a");
    assert_eq!(source("../../../x@v1"), "/x@v1");
    assert_eq!(source("./a@b#c"), "/a/b/a@b#c");
    assert_eq!(source("owner/repo@v1"), "owner/repo@v1");
    assert_eq!(source(".\\x"), "/a/b/.\\x");
    assert_eq!(source(".hidden"), ".hidden");
    assert_eq!(resolve_path("/", "./x/./y/../z/"), "/x/z");
}

#[test]
fn hide_cli_only_plugin_marketplaces_removes_openai_bundled() {
    let entry = |name: &str| PluginMarketplaceEntry {
        name: name.to_string(),
        details: format!("/marketplaces/{name}"),
    };
    let mut marketplaces = vec![entry("openai-bundled"), entry("openai-curated")];

    hide_cli_only_plugin_marketplaces(&mut marketplaces);

    assert_eq!(marketplaces, vec![entry("openai-curated")]);
}

#[test]
fn other_marketplaces_keep_their_order() {
    let mut marketplaces: Vec<PluginMarketplaceEntry<u8>> = Vec::new();
    for (i, name) in ["b", "openai-bundled", "a", "openai-bundled", "c"].iter().enumerate() {
        marketplaces.push(PluginMarketplaceEntry {
            name: name.to_string(),
            details: i as u8,
        });
    }
    hide_cli_only_plugin_marketplaces(&mut marketplaces);
    let left: Vec<u8> = marketplaces.iter().map(|entry| entry.details).collect();
    assert_eq!(left, vec![0, 2, 4]);
}

#[test]
fn mcp_inventory_maps_prefix_tool_names_by_server() {
    let statuses: Vec<McpServerStatus<&str, u8, u8>> = vec![
        McpServerStatus {
            name: "docs".to_string(),
            tools: vec![("list".to_string(), "list")],
            resources: Vec::new(),
            resource_templates: Vec::new(),
            auth_status: McpAuthStatus::Unsupported,
        },
        McpServerStatus {
            name: "disabled".to_string(),
            tools: Vec::new(),
            resources: Vec::new(),
            resource_templates: Vec::new(),
            auth_status: McpAuthStatus::Unsupported,
        },
    ];

    let maps = mcp_inventory_maps_from_statuses(statuses);
    let mut resource_names = maps.resources.names();
    resource_names.sort();
    let mut template_names = maps.resource_templates.names();
    template_names.sort();

    assert_eq!(maps.tools.names(), vec!["mcp__docs__list".to_string()]);
    assert_eq!(resource_names, vec!["disabled", "docs"]);
    assert_eq!(template_names, vec!["disabled", "docs"]);
    assert_eq!(
        maps.auth_statuses.get("disabled"),
        Some(&McpAuthStatus::Unsupported)
    );
    assert_eq!(maps.tools.get("mcp__docs__list"), Some(&"list"));
    assert_eq!(maps.tools.len(), 1);
}

#[test]
fn build_feedback_upload_params_includes_thread_id_and_rollout_path() {
    let thread_id = "0195-thread".to_string();
    let rollout_path = "/tmp/rollout.jsonl".to_string();

    let params = build_feedback_upload_params(
        Some(thread_id.clone()),
        Some(rollout_path.clone()),
        "safety_check",
        Some("needs follow-up".to_string()),
        Some("turn-123".to_string()),
        /*include_logs*/ true,
    );

    assert_eq!(params.classification, "safety_check");
    assert_eq!(params.reason, Some("needs follow-up".to_string()));
    assert_eq!(params.thread_id, Some(thread_id));
    assert_eq!(
        params
            .tags
            .as_ref()
            .and_then(|tags| tags.get("turn_id"))
            .map(String::as_str),
        Some("turn-123")
    );
    assert_eq!(params.include_logs, true);
    assert_eq!(params.extra_log_files, Some(vec![rollout_path]));
}

#[test]
fn build_feedback_upload_params_omits_rollout_path_without_logs() {
    let params = build_feedback_upload_params(
        /*origin_thread_id*/ None,
        Some("/tmp/rollout.jsonl".to_string()),
        "good_result",
        /*reason*/ None,
        /*turn_id*/ None,
        /*include_logs*/ false,
    );

    assert_eq!(params.classification, "good_result");
    assert_eq!(params.reason, None);
    assert_eq!(params.thread_id, None);
    assert!(params.tags.is_none());
    assert_eq!(params.include_logs, false);
    assert_eq!(params.extra_log_files, None);
}

#[test]
fn later_wishes_wait_for_the_write() {
    let mut writes = PendingWrites::new();
    assert!(writes.set_plugin_enabled("a", true));
    assert!(!writes.set_plugin_enabled("a", false));
    assert!(!writes.set_plugin_enabled("a", true));
    assert!(writes.set_plugin_enabled("b", true));
    assert!(writes.set_hook_enabled("a", true));
    assert_eq!(writes.pending_plugin_enabled_writes.get("a"), Some(&Some(true)));
    assert_eq!(writes.pending_plugin_enabled_writes.get("b"), Some(&None));
    assert_eq!(writes.pending_hook_enabled_writes.get("a"), Some(&None));
    assert_eq!(writes.pending_hook_enabled_writes.get("b"), None);
}

#[test]
fn names_are_kept_once() {
    let mut map: NameMap<u8> = NameMap::new();
    map.insert("b", 1);
    map.insert("a", 2);
    map.insert("b", 3);
    assert_eq!(map.names(), vec!["b".to_string(), "a".to_string()]);
    assert_eq!(map.get("b"), Some(&3));
    assert_eq!(map.len(), 2);
    assert!(!map.contains("c"));
}

#[test]
fn configuration_edits() {
    let edit = write_plugin_enabled("x@market", false);
    assert_eq!(edit.key_path, "plugins.x@market");
    assert_eq!(edit.value.to_string(), "{\"enabled\":false}");
    let edit = write_hook_enabled("k", true);
    assert_eq!(edit.key_path, "hooks.state");
    assert_eq!(edit.value.to_string(), "{\"k\":{\"enabled\":true}}");
    let edit = write_hook_trust("k", "h");
    assert_eq!(edit.key_path, "hooks.state");
    assert_eq!(edit.value.to_string(), "{\"k\":{\"trusted_hash\":\"h\"}}");
}

#[test]
fn hooks_of_the_directory_are_counted() {
    let entries = vec![
        HooksEntry {
            cwd: "/other".to_string(),
            hooks: vec![HookTrustStatus::Untrusted],
        },
        HooksEntry {
            cwd: "/repo".to_string(),
            hooks: vec![
                HookTrustStatus::Untrusted,
                HookTrustStatus::Other,
                HookTrustStatus::Modified,
            ],
        },
        HooksEntry {
            cwd: "/repo".to_string(),
            hooks: vec![HookTrustStatus::Untrusted],
        },
    ];
    assert_eq!(hooks_needing_review(&entries, "/repo/"), 2);
    assert_eq!(hooks_needing_review(&entries, "/none"), 0);
}

#[test]
fn events_beyond_the_capacity_are_given_up() {
    let mut store: ThreadEventStore<&str, u8, ()> = ThreadEventStore {
        buffer: vec![ThreadBufferedEvent::Request { request: "approve" }],
        capacity: 2,
        active: true,
    };
    let kept = Enqueued {
        evicted_request: None,
        should_send: true,
    };
    assert_eq!(store.enqueue_thread_feedback_event(1), kept);
    assert_eq!(
        store.enqueue_thread_feedback_event(2),
        Enqueued {
            evicted_request: Some("approve"),
            should_send: true,
        }
    );
    assert_eq!(store.enqueue_thread_feedback_event(3), kept);
    assert_eq!(
        store.buffer,
        vec![
            ThreadBufferedEvent::FeedbackSubmission { event: 2 },
            ThreadBufferedEvent::FeedbackSubmission { event: 3 },
        ]
    );
    let mut hidden: ThreadEventStore<&str, u8, ()> = ThreadEventStore {
        buffer: Vec::new(),
        capacity: 0,
        active: false,
    };
    assert!(!hidden.enqueue_thread_feedback_event(1).should_send);
    assert_eq!(hidden.buffer, Vec::new());
}

#[test]
fn feedback_is_shown_where_it_came_from() {
    let event = |result: Result<String, String>| FeedbackThreadEvent {
        category: "bug",
        include_logs: true,
        feedback_audience: 'e',
        result,
    };
    let sent = |thread: Option<String>| {
        handle_feedback_submitted(thread, "bug", true, 'e', Ok("f".to_string()))
    };
    assert_eq!(
        sent(Some("t".to_string())),
        FeedbackRoute::Enqueue {
            thread_id: "t".to_string(),
            event: event(Ok("f".to_string())),
        }
    );
    assert_eq!(
        sent(None),
        FeedbackRoute::Show {
            event: event(Ok("f".to_string())),
        }
    );
    assert_eq!(
        handle_feedback_thread_event(event(Ok("f".to_string()))),
        FeedbackCell::Success {
            category: "bug",
            include_logs: true,
            thread_id: "f".to_string(),
            feedback_audience: 'e',
        }
    );
    assert_eq!(
        handle_feedback_thread_event(event(Err("down".to_string()))),
        FeedbackCell::Error {
            message: "Failed to upload feedback: down".to_string(),
        }
    );
}

#[test]
fn inventory_outcomes() {
    let none: Result<Vec<u8>, String> = Ok(Vec::new());
    assert!(matches!(handle_mcp_inventory_result(&none, 0), McpInventoryOutcome::Empty));
    assert!(matches!(handle_mcp_inventory_result(&none, 1), McpInventoryOutcome::Listing));
    let one: Result<Vec<u8>, String> = Ok(vec![1]);
    assert!(matches!(handle_mcp_inventory_result(&one, 0), McpInventoryOutcome::Listing));
    let failed: Result<Vec<u8>, String> = Err("down".to_string());
    assert!(matches!(
        handle_mcp_inventory_result(&failed, 0),
        McpInventoryOutcome::Error { message } if message == "Failed to load MCP inventory: down"
    ));
}

#[test]
fn the_last_loading_cell_is_taken_out() {
    let mut cells = vec!['a', 'b', 'c', 'd'];
    assert!(clear_committed_mcp_inventory_loading(
        &mut cells,
        &vec![true, false, true, false]
    ));
    assert_eq!(cells, vec!['a', 'b', 'd']);
    assert!(!clear_committed_mcp_inventory_loading(&mut cells, &vec![false; 3]));
    assert_eq!(cells.len(), 3);
}

#[test]
fn pages_are_put_together() {
    let mut pager = McpStatusPager::new();
    assert_eq!(pager.cursor, None);
    assert!(!pager.on_page(vec![1, 2], Some("c".to_string())));
    assert_eq!(pager.cursor, Some("c".to_string()));
    assert!(pager.on_page(vec![3], None));
    assert_eq!(pager.statuses, vec![1, 2, 3]);
}

fn block(text: &str) -> Vec<Vec<String>> {
    text.split('\n')
        .map(|line| line.split_inclusive(' ').map(str::to_string).collect())
        .collect()
}

#[test]
fn conversations_are_recent_and_bounded() {
    assert_eq!(lines_to_plain_text(&block(" one two\nthree ")), "one two\nthree");
    assert_eq!(prompt_pilot_conversation_context(&Vec::new(), None), None);
    assert_eq!(
        prompt_pilot_conversation_context(&vec![block(" "), block("\n")], Some(&block(" "))),
        None
    );
    assert_eq!(
        prompt_pilot_conversation_context(
            &vec![block("a"), block(" "), block("b")],
            Some(&block("c"))
        ),
        Some("a\n\nb\n\nc".to_string())
    );
    let many: Vec<Vec<Vec<String>>> = (0..30).map(|i| block(&format!("b{i}"))).collect();
    let text = prompt_pilot_conversation_context(&many, None).expect("text");
    assert!(text.starts_with("b6\n\nb7"));
    assert!(text.ends_with("b29"));
    let long = vec![block("old"), block(&"x".repeat(12_000))];
    assert_eq!(prompt_pilot_conversation_context(&long, None), Some("x".repeat(12_000)));
    let text = prompt_pilot_conversation_context(&long, Some(&block("y"))).expect("text");
    assert_eq!(text, format!("{}\n[conversation truncated]", "x".repeat(12_000)));
}

#[test]
fn requests_to_the_app_server() {
    assert_eq!(AppRequest::PromptEnhance.request_id("1"), "prompt-pilot-1");
    assert_eq!(
        AppRequest::PromptEnhance.failure_message("down"),
        "thread/prompt/enhance failed in TUI: down"
    );
    assert_eq!(
        AppRequest::PluginInstall.failure_message("down"),
        "Failed to install plugin: plugin/install failed in TUI"
    );
    assert_eq!(AppRequest::HookTrust.id_prefix(), "hooks-config-write-");
    assert_eq!(
        AppRequest::MarketplaceAdd.relative_cwd_message(),
        "Failed to add marketplace: marketplace/add cwd must be absolute"
    );
}
