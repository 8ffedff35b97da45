use prompt_pilot::context_pack::{
    BudgetUsage, ContextPack, ContextWarning, GitBlock, IntentBlock, ManifestBlock, ProjectBlock,
    ProjectDocBlock, RelevantFileBlock, RuleBlock,
};
use prompt_pilot::guardrails::{extract_path_like_tokens, validate_enhanced_prompt};

fn pack() -> ContextPack {
    ContextPack {
        intent: IntentBlock {
            original_prompt: "不要改变 Plan mode，只通过 slash command 开启".to_string(),
            language: "zh".to_string(),
            hard_constraints: vec![
                "不要改变 Plan mode".to_string(),
                "只通过 slash command 开启".to_string(),
            ],
            mentioned_paths: vec!["codex-rs/tui/src/chatwidget.rs".to_string()],
            keywords: Vec::new(),
        },
        project: ProjectBlock {
            repo_root: "/repo".to_string(),
            detected_languages: vec!["Rust".to_string()],
            workspace_kind: Some("Cargo workspace".to_string()),
            relevant_modules: Vec::new(),
            test_commands: vec!["cargo test -p codex-tui".to_string()],
            manifests: vec![ManifestBlock {
                path: "Cargo.toml".to_string(),
                summary: "Cargo workspace".to_string(),
            }],
        },
        project_docs: vec![ProjectDocBlock {
            path: "README.md".to_string(),
            content: "PromptPilot docs".to_string(),
            truncated: false,
        }],
        rules: vec![RuleBlock {
            path: "AGENTS.md".to_string(),
            summary_or_content: "Keep changes scoped.".to_string(),
            truncated: false,
        }],
        git: Some(GitBlock {
            branch: Some("release/1.1.0".to_string()),
            has_changes: true,
            changed_files: vec!["codex-rs/tui/src/chatwidget.rs".to_string()],
            status_short: String::new(),
            diff_stat: None,
        }),
        relevant_files: vec![RelevantFileBlock {
            path: "codex-rs/tui/src/chatwidget.rs".to_string(),
            reason: "changed".to_string(),
            confidence: 80,
            evidence: vec!["changed".to_string()],
        }],
        warnings: vec![ContextWarning {
            message: "none".to_string(),
        }],
        budget: BudgetUsage {
            project_doc_bytes: 0,
            rule_bytes: 0,
            git_bytes: 0,
            relevant_file_count: 1,
        },
    }
}

#[test]
fn empty_prompt_fails() {
    let err = validate_enhanced_prompt(&pack(), "   ")
        .expect_err("empty prompt should fail deterministic guardrails");

    assert_eq!(err, "enhanced prompt is empty");
}

#[test]
fn invented_path_fails() {
    let err = validate_enhanced_prompt(
        &pack(),
        "请在不改变 Plan mode 的前提下，只通过 slash command 开启，并修改 codex-rs/tui/src/unknown.rs。",
    )
    .expect_err("invented path should fail");

    assert_eq!(
        err,
        "enhanced prompt invented path `codex-rs/tui/src/unknown.rs`"
    );
}

#[test]
fn path_with_cjk_label_uses_context_pack_path() {
    validate_enhanced_prompt(
        &pack(),
        "请在不改变 Plan mode 的前提下，只通过 slash command 开启。注意：README.md 已进入上下文，可以作为项目说明参考。",
    )
    .expect("labeled README path should be accepted");
}

#[test]
fn cjk_slash_phrase_is_not_treated_as_path() {
    validate_enhanced_prompt(
        &pack(),
        "请在不改变 Plan mode 的前提下，只通过 slash command 开启。请修复当前项目中的登录/认证相关 bug。",
    )
    .expect("Chinese slash phrase should not be treated as an invented path");
}

#[test]
fn valid_enhanced_prompt_passes() {
    validate_enhanced_prompt(
        &pack(),
        "请实现 ACE 的 session 级开关，只通过 slash command 开启，并保持 Plan mode 不变。优先检查 codex-rs/tui/src/chatwidget.rs 和 Cargo.toml，按现有 TUI 约定保持改动聚焦。",
    )
    .expect("valid prompt should pass");
}

#[test]
fn only_words_that_look_like_paths_are_checked() {
    assert_eq!(
        extract_path_like_tokens("see src/lib.rs, and/or https://example.com/a.rs"),
        vec!["src/lib.rs".to_string(), "and/or".to_string()]
    );
    assert!(validate_enhanced_prompt(&pack(), "Look at the login flow.").is_ok());
    assert_eq!(
        validate_enhanced_prompt(&pack(), "Look at ./src/new.rs and Cargo.toml"),
        Err("enhanced prompt invented path `/src/new.rs`".to_string())
    );
}

#[test]
fn allowed_paths_are_sorted_and_unique() {
    assert_eq!(
        pack().allowed_path_strings(),
        vec![
            "/repo".to_string(),
            "AGENTS.md".to_string(),
            "Cargo.toml".to_string(),
            "README.md".to_string(),
            "codex-rs/tui/src/chatwidget.rs".to_string(),
        ]
    );
}
