use prompt_pilot::context_engine::{
    collect_bootstrap_context_pack, collect_context_pack, context_pack_repo_root, FileLookups,
    ProjectReads,
};
use prompt_pilot::context_pack::IntentBlock;
use prompt_pilot::providers::{
    cargo_workspace_members, collect_agent_rules, collect_git_block, collect_project_block,
    collect_project_docs, non_empty_truncated, project_doc_names, project_manifest_names,
    summarize_cargo_manifest, summarize_go_mod, summarize_manifest, summarize_package_json,
    summarize_package_value, summarize_pyproject, toml_string_value, workspace_members_in,
    GitWorktreeSummary,
};
use prompt_pilot::retriever::file_search_terms;

fn bytes(text: &str) -> Option<Vec<u8>> {
    Some(text.as_bytes().to_vec())
}

#[test]
fn cargo_manifest_summary_detects_workspace_members() {
    let summary = summarize_cargo_manifest(
        r#"
            [workspace]
            members = ["core", "tui"]
            "#,
    );

    assert_eq!(summary, "Cargo workspace; members: core, tui");
}

#[test]
fn project_docs_rules_and_manifest_enter_context_pack() {
    let prompt = "fix codex-rs/tui/src/app.rs";
    let reads = ProjectReads {
        repo_root: "/repo".to_string(),
        docs: vec![bytes("Project docs"), None, None],
        rule_sources: vec!["/repo/AGENTS.md".to_string()],
        rules: vec![bytes("Project rules")],
        manifests: vec![
            bytes("[workspace]\nmembers = [\"codex-rs/tui\"]\n"),
            None,
            None,
            None,
        ],
        git: None,
    };
    let intent = IntentBlock::from_prompt(prompt, "/repo");
    let lookups = FileLookups {
        exist: vec![false],
        searches: file_search_terms(&intent).iter().map(|_| Vec::new()).collect(),
    };

    let pack = collect_context_pack(prompt, reads, &lookups);

    assert_eq!(pack.project_docs[0].content, "Project docs");
    assert_eq!(pack.rules[0].summary_or_content, "Project rules");
    assert_eq!(pack.rules[0].path, "AGENTS.md");
    assert_eq!(
        pack.project.workspace_kind,
        Some("Cargo workspace".to_string())
    );
    assert_eq!(pack.git, None);
    assert_eq!(pack.project.relevant_modules, vec!["codex-rs/tui".to_string()]);
    assert_eq!(pack.budget.project_doc_bytes, 12);
    assert_eq!(pack.budget.rule_bytes, 13);
    assert_eq!(pack.warnings.len(), 1);
    assert_eq!(context_pack_repo_root(&pack), "/repo");
}

#[test]
fn cut_documents_are_warned_about() {
    let long = "d".repeat(6001);
    let rules = "r".repeat(8001);
    let reads = ProjectReads {
        repo_root: "/repo".to_string(),
        docs: vec![None, bytes(&long), bytes("   ")],
        rule_sources: vec!["/repo/AGENTS.md".to_string(), "/home/AGENTS.md".to_string()],
        rules: vec![None, bytes(&rules)],
        manifests: vec![None, None, None, None],
        git: Some(GitWorktreeSummary {
            branch: Some("main".to_string()),
            has_changes: true,
            changed_files: vec!["a.rs".to_string()],
            status_short: " M a.rs".to_string(),
            diff_stat: " \n".to_string(),
        }),
    };
    let pack = collect_bootstrap_context_pack("hello", reads);
    assert_eq!(pack.project_docs.len(), 1);
    assert_eq!(pack.project_docs[0].path, "README");
    assert!(pack.project_docs[0].truncated);
    let messages: Vec<&str> = pack.warnings.iter().map(|w| w.message.as_str()).collect();
    assert_eq!(
        messages,
        vec![
            "Project doc `README` was truncated.",
            "Project rule `/home/AGENTS.md` was truncated."
        ]
    );
    assert_eq!(pack.budget.git_bytes, 7);
    assert_eq!(pack.budget.relevant_file_count, 0);
    assert!(pack.relevant_files.is_empty());
    assert_eq!(pack.project.workspace_kind, None);
    assert_eq!(pack.git.and_then(|git| git.diff_stat), None);
}

#[test]
fn manifests_are_summarized() {
    assert_eq!(
        summarize_cargo_manifest("[package]\nname = \"core\"\n"),
        "package `core`"
    );
    assert_eq!(summarize_cargo_manifest("[package]\n"), "");
    assert_eq!(summarize_package_json("{\"name\": \"web\"}"), "Node package `web`");
    assert_eq!(
        summarize_package_json("{\"name\": \"web\", \"workspaces\": []}"),
        "Node package `web` with workspaces"
    );
    assert_eq!(
        summarize_package_json("{\"name\": 1, \"workspaces\": null}"),
        "Node package with workspaces"
    );
    assert_eq!(summarize_package_json("not json"), "Node package");
    assert_eq!(summarize_package_value(None), "Node package");
    assert_eq!(
        summarize_pyproject("[project]\n  name = \"tool\"  \n"),
        "Python project `tool`"
    );
    assert_eq!(summarize_pyproject("name = 'tool'"), "Python project");
    assert_eq!(summarize_go_mod("\r\n module example.com/x \r\n"), "Go module `example.com/x`");
    assert_eq!(summarize_go_mod("go 1.22"), "Go module");
    assert_eq!(summarize_manifest("go.mod", ""), "Go module");
    assert_eq!(summarize_manifest("other", "x"), "");
    assert_eq!(toml_string_value("name = \"\nname = \"b\"", "name"), Some("b".to_string()));
    assert_eq!(toml_string_value("name = \"", "name"), None);
}

#[test]
fn workspace_members_are_texts_only() {
    let text = "[workspace]\nmembers = [\"a\", 1, \"b\"]\n";
    assert_eq!(cargo_workspace_members(text), vec!["a".to_string(), "b".to_string()]);
    assert!(cargo_workspace_members("[workspace\n").is_empty());
    assert!(cargo_workspace_members("members = [\"a\"]").is_empty());
    let many: Vec<String> = (0..30).map(|i| format!("\"m{i}\"")).collect();
    let text = format!("[workspace]\nmembers = [{}]\n", many.join(", "));
    assert_eq!(cargo_workspace_members(&text).len(), 24);
    let value = toml::from_str::<toml::Value>("workspace = { members = [\"x\"] }").expect("toml");
    assert_eq!(workspace_members_in(&value), vec!["x".to_string()]);
}

#[test]
fn the_project_block_tells_of_each_manifest() {
    assert_eq!(project_manifest_names().len(), 4);
    let block = collect_project_block(
        "/repo",
        &vec![
            bytes("[package]\nname = \"core\"\n"),
            bytes("{}"),
            None,
            bytes("module x\n"),
        ],
    );
    assert_eq!(
        block.detected_languages,
        vec!["Go".to_string(), "JavaScript/TypeScript".to_string(), "Rust".to_string()]
    );
    assert_eq!(
        block.test_commands,
        vec!["cargo test".to_string(), "go test ./...".to_string(), "npm test".to_string()]
    );
    assert_eq!(block.workspace_kind, Some("Cargo package".to_string()));
    assert!(block.relevant_modules.is_empty());
    let paths: Vec<&str> = block.manifests.iter().map(|m| m.path.as_str()).collect();
    assert_eq!(paths, vec!["Cargo.toml", "package.json", "go.mod"]);
    assert_eq!(block.manifests[2].summary, "Go module `x`");

    let block = collect_project_block(
        "/repo",
        &vec![bytes("no summary"), None, bytes(""), Some(vec![0])],
    );
    assert_eq!(block.detected_languages, vec!["Python".to_string()]);
    assert_eq!(block.workspace_kind, Some("Python project".to_string()));
}

#[test]
fn documents_and_rules_that_are_blank_are_left_out() {
    assert_eq!(project_doc_names()[2], "docs/README.md");
    let docs = collect_project_docs(&vec![bytes(" "), Some(vec![0]), bytes(" text ")]);
    assert_eq!(docs.len(), 1);
    assert_eq!(docs[0].path, "docs/README.md");
    assert_eq!(docs[0].content, "text");
    let rules = collect_agent_rules(
        "/repo",
        &vec!["/repo/a/AGENTS.md".to_string(), "/x".to_string()],
        &vec![bytes("rules"), None],
    );
    assert_eq!(rules.len(), 1);
    assert_eq!(rules[0].path, "a/AGENTS.md");
}

#[test]
fn git_texts_are_kept_up_to_a_limit() {
    let block = collect_git_block(Some(GitWorktreeSummary {
        branch: None,
        has_changes: false,
        changed_files: Vec::new(),
        status_short: "s".repeat(4001),
        diff_stat: "d".repeat(5000),
    }))
    .expect("block");
    assert_eq!(block.status_short.len(), 4000);
    assert_eq!(block.diff_stat.map(|text| text.len()), Some(4000));
    assert!(collect_git_block(None).is_none());
    assert_eq!(non_empty_truncated("   x".to_string(), 3), None);
    assert_eq!(non_empty_truncated("x".to_string(), 3), Some("x".to_string()));
}
