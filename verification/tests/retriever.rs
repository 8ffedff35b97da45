use prompt_pilot::context_pack::{ContextWarning, GitBlock, IntentBlock, RelevantFileBlock};
use prompt_pilot::relevant_files::{
    add_observed_relevant_file, merge_relevant_files, read_small_snippets, safe_relative_path,
    snippet_targets,
};
use prompt_pilot::retriever::{
    add_candidate, exclude_patterns, file_search_terms, is_excluded_path, mentioned_locations,
    retrieve_relevant_files, retrieve_relevant_files_for_queries, Candidate, FileMatch,
};

fn intent(prompt: &str, mentioned: &[&str]) -> IntentBlock {
    IntentBlock {
        original_prompt: prompt.to_string(),
        language: "en".to_string(),
        hard_constraints: Vec::new(),
        mentioned_paths: mentioned.iter().map(|path| path.to_string()).collect(),
        keywords: Vec::new(),
    }
}

fn no_matches(intent: &IntentBlock) -> Vec<Vec<FileMatch>> {
    file_search_terms(intent).iter().map(|_| Vec::new()).collect()
}

fn file(path: &str) -> FileMatch {
    FileMatch {
        path: path.to_string(),
        is_file: true,
    }
}

#[test]
fn explicit_path_ranks_above_git_changed_file() {
    let intent = intent("fix src/lib.rs", &["src/lib.rs"]);
    let git = GitBlock {
        branch: None,
        has_changes: true,
        changed_files: vec!["src/git.rs".to_string()],
        status_short: " M src/git.rs".to_string(),
        diff_stat: None,
    };

    let searches = no_matches(&intent);
    let (files, warnings) =
        retrieve_relevant_files("/repo", &intent, &vec![true], Some(&git), &searches);

    assert_eq!(warnings, Vec::new());
    assert_eq!(files[0].path, "src/lib.rs");
    assert_eq!(files[1].path, "src/git.rs");
    assert_eq!(files[0].confidence, 100);
    assert_eq!(files[1].confidence, 40);
    assert_eq!(files[0].reason, "explicitly mentioned by the user");
    assert_eq!(files[1].reason, "changed in the current git worktree");
}

#[test]
fn nonexistent_explicit_path_warns_and_is_not_invented() {
    let intent = intent("fix src/missing.rs", &["src/missing.rs"]);

    let searches = no_matches(&intent);
    let (files, warnings) =
        retrieve_relevant_files("/repo", &intent, &vec![false], None, &searches);

    assert_eq!(files, Vec::new());
    assert_eq!(
        warnings,
        vec![ContextWarning {
            message: "Mentioned path `src/missing.rs` does not exist in the project.".to_string(),
        }]
    );
}

#[test]
fn scores_of_one_file_add_up() {
    let intent = intent("context", &[]);
    let mut searches = no_matches(&intent);
    assert_eq!(file_search_terms(&intent)[1], "context");
    searches[0].push(file("/repo/src/b.rs"));
    searches[1].push(file("src/b.rs"));
    searches[1].push(file("src/a.rs"));
    searches[1].push(file("target/debug/x.rs"));
    searches[1].push(FileMatch {
        path: "src".to_string(),
        is_file: false,
    });

    let (files, _) = retrieve_relevant_files("/repo", &intent, &Vec::new(), None, &searches);

    let found: Vec<(&str, u8)> = files.iter().map(|f| (f.path.as_str(), f.confidence)).collect();
    assert_eq!(found, vec![("src/b.rs", 40), ("src/a.rs", 20)]);
    assert_eq!(
        files[0].evidence,
        vec![
            "file-search match for `composer`".to_string(),
            "file-search match for `context`".to_string()
        ]
    );
}

#[test]
fn queries_find_at_most_twelve_files() {
    let queries = vec!["  login ".to_string(), "x".to_string()];
    let searches = vec![
        (0..20).map(|i| file(&format!("src/f{i:02}.rs"))).collect(),
        vec![file("src/ignored.rs")],
    ];
    let files = retrieve_relevant_files_for_queries("/repo", &queries, &searches);
    assert_eq!(files.len(), 12);
    assert_eq!(files[0].path, "src/f00.rs");
    assert_eq!(files[0].confidence, 25);
    assert_eq!(files[0].reason, "ACE agent search match for `login`");
    assert!(files.iter().all(|file| file.path != "src/ignored.rs"));
}

#[test]
fn candidates_are_kept_once_for_each_path() {
    let mut candidates: Vec<Candidate> = Vec::new();
    add_candidate(&mut candidates, "src/a.rs", 100, "mentioned");
    add_candidate(&mut candidates, "src//a.rs", 40, "changed");
    add_candidate(&mut candidates, "src/a.rs", 40, "changed");
    assert_eq!(candidates.len(), 1);
    assert_eq!(candidates[0].path, "src/a.rs");
    assert_eq!(candidates[0].score, 180);
    assert_eq!(candidates[0].evidence, vec!["mentioned".to_string(), "changed".to_string()]);
}

#[test]
fn search_terms_are_sorted_and_limited() {
    let mut intent = intent("x", &["src/login.rs", "a.b"]);
    intent.keywords = vec!["zz".to_string(), "auth".to_string()];
    assert_eq!(
        file_search_terms(&intent),
        vec![
            "auth".to_string(),
            "composer".to_string(),
            "context".to_string(),
            "ctrl-x".to_string(),
            "login".to_string(),
            "prompt_pilot".to_string(),
            "promptpilot".to_string(),
            "slash_command".to_string()
        ]
    );
    intent.keywords = (0..9).map(|i| format!("key{i}")).collect();
    assert_eq!(file_search_terms(&intent).len(), 10);
    assert_eq!(
        mentioned_locations("/repo", &intent),
        vec!["/repo/src/login.rs".to_string(), "/repo/a.b".to_string()]
    );
}

#[test]
fn some_paths_never_count() {
    for path in ["a/target/b", ".git/HEAD", "x/.env", ".env.local", "keys/a.pem", "a.key"] {
        assert!(is_excluded_path(path), "{path}");
    }
    for path in ["src/lib.rs", "targets/a", "env", "a.pem/b", "..", "src/environment.rs"] {
        assert!(!is_excluded_path(path), "{path}");
    }
    assert_eq!(exclude_patterns().len(), 18);
    assert_eq!(exclude_patterns()[0], ".git/**");
    assert_eq!(exclude_patterns()[17], "*.key");
}

#[test]
fn merging_keeps_what_is_known() {
    let mut files = retrieve_relevant_files_for_queries(
        "/repo",
        &vec!["login".to_string()],
        &vec![vec![file("src/a.rs")]],
    );
    let more = retrieve_relevant_files_for_queries(
        "/repo",
        &vec!["auth".to_string(), "login".to_string()],
        &vec![vec![file("src/a.rs"), file("src/b.rs")], vec![file("src/a.rs")]],
    );
    merge_relevant_files(&mut files, &more);
    assert_eq!(files.len(), 2);
    assert_eq!(files[0].path, "src/a.rs");
    assert_eq!(files[0].confidence, 50);
    assert_eq!(files[0].reason, "ACE agent search match for `login`");
    assert_eq!(
        files[0].evidence,
        vec![
            "ACE agent search match for `login`".to_string(),
            "ACE agent search match for `auth`".to_string()
        ]
    );
    assert_eq!(files[1].path, "src/b.rs");

    add_observed_relevant_file(&mut files, "src/b.rs");
    add_observed_relevant_file(&mut files, "src/b.rs");
    add_observed_relevant_file(&mut files, "src/c.rs");
    assert_eq!(files.len(), 3);
    assert_eq!(files[1].confidence, 65);
    assert_eq!(files[1].evidence.len(), 2);
    assert_eq!(files[2].reason, "small snippet read by ACE agent");
    assert_eq!(files[2].confidence, 65);
}

fn relevant(path: &str, confidence: u8, evidence: &[&str]) -> RelevantFileBlock {
    RelevantFileBlock {
        path: path.to_string(),
        reason: format!("why {path}"),
        confidence,
        evidence: evidence.iter().map(|text| text.to_string()).collect(),
    }
}

#[test]
fn merging_keeps_the_largest_confidence() {
    let mut files = vec![relevant("src/a.rs", 40, &["x"]), relevant("src/b.rs", 90, &["y"])];
    let more = vec![
        relevant("src/a.rs", 70, &["x"]),
        relevant("src/c.rs", 10, &[]),
        relevant("src//a.rs", 55, &["z"]),
        relevant("src/b.rs", 30, &[]),
        relevant("src/c.rs", 25, &["w"]),
    ];
    merge_relevant_files(&mut files, &more);
    assert_eq!(
        files,
        vec![
            relevant("src/a.rs", 70, &["x", "z"]),
            relevant("src/b.rs", 90, &["y"]),
            relevant("src/c.rs", 25, &["w"]),
        ]
    );
}

#[test]
fn merging_the_same_files_twice_changes_nothing() {
    let mut files = vec![relevant("src/a.rs", 40, &["x"])];
    let more = vec![
        relevant("src/b.rs", 10, &["y", "y"]),
        relevant("src/a.rs", 70, &["z", "x"]),
        relevant("src/b.rs", 20, &["w"]),
    ];
    merge_relevant_files(&mut files, &more);
    let once = files.clone();
    assert_ne!(once, vec![relevant("src/a.rs", 40, &["x"])]);
    merge_relevant_files(&mut files, &more);
    assert_eq!(files, once);
}

#[test]
fn snippets_are_read_below_the_project_only() {
    assert_eq!(safe_relative_path(" `src/a.rs` "), Some("src/a.rs".to_string()));
    assert_eq!(safe_relative_path("\"'"), None);
    assert_eq!(safe_relative_path("/etc/passwd"), None);
    assert_eq!(safe_relative_path("src/../../x"), None);
    let asked = ["src/a.rs", "../x", "/y", "b.bin", "gone.rs"];
    let asked: Vec<String> = asked.iter().map(|path| path.to_string()).collect();
    let targets = snippet_targets("/repo", &asked);
    assert_eq!(
        targets,
        vec![
            "/repo/src/a.rs".to_string(),
            "/repo/b.bin".to_string(),
            "/repo/gone.rs".to_string()
        ]
    );
    assert!(snippet_targets("repo", &asked).is_empty());
    let contents = vec![Some(vec![b'x'; 2001]), Some(vec![1, 0, 2]), None];
    let snippets = read_small_snippets("/repo", &targets, &contents);
    assert_eq!(snippets.len(), 1);
    assert_eq!(snippets[0].path, "src/a.rs");
    assert_eq!(snippets[0].content, "x".repeat(2000));
    assert!(snippets[0].truncated);
}
