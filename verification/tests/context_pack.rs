use prompt_pilot::context_pack::{
    detect_language, extract_hard_constraints, extract_keywords, extract_mentioned_paths,
    is_stop_word, looks_like_path, normalize_repo_path, IntentBlock,
};

#[test]
fn chinese_prompt_sets_chinese_language() {
    let intent = IntentBlock::from_prompt("不要改变 Plan mode，只修改 tui/src/app.rs", "/repo");

    assert_eq!(intent.language, "zh");
    assert_eq!(
        intent.hard_constraints,
        vec!["不要改变 Plan mode，只修改 tui/src/app.rs"]
    );
    assert_eq!(intent.mentioned_paths, vec!["tui/src/app.rs".to_string()]);
}

#[test]
fn language_goes_by_the_share_of_chinese() {
    assert_eq!(detect_language("fix login bug"), "en");
    assert_eq!(detect_language(""), "en");
    assert_eq!(detect_language("修复登录 bug"), "zh");
    assert_eq!(detect_language("修 abcd"), "en");
    assert_eq!(detect_language("修 abc"), "zh");
}

#[test]
fn keywords_are_sorted_lower_case_and_unique() {
    assert_eq!(
        extract_keywords("Fix the Login login-flow, please: x a_b"),
        vec![
            "a_b".to_string(),
            "fix".to_string(),
            "login".to_string(),
            "login-flow".to_string()
        ]
    );
    assert!(is_stop_word("the"));
    assert!(!is_stop_word("login"));
}

#[test]
fn mentioned_paths_are_relative_to_the_project() {
    assert_eq!(
        extract_mentioned_paths("look at `/repo/src/lib.rs`, Cargo.toml and src/lib.rs.", "/repo"),
        vec!["Cargo.toml".to_string(), "src/lib.rs".to_string()]
    );
    assert!(looks_like_path("src/lib.rs"));
    assert!(!looks_like_path("https://example.com/lib.rs"));
    assert_eq!(normalize_repo_path("/repo/a", "/repo"), "a");
    assert_eq!(normalize_repo_path("a", "/repo"), "a");
}

#[test]
fn prompts_without_constraints_have_none() {
    assert!(extract_hard_constraints("fix login bug").is_empty());
    assert_eq!(
        extract_hard_constraints("fix it\ndo not touch auth"),
        vec!["do not touch auth".to_string()]
    );
}
