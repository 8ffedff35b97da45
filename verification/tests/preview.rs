use prompt_pilot::preview::{
    detect_intent, enhance_prompt, PromptIntent, PromptPilotPreview,
};
use prompt_pilot::views::{
    Color, KeyCode, KeyEvent, PromptPilotPreviewView, StyledLine, ViewCompletion,
};

fn key(code: KeyCode) -> KeyEvent {
    KeyEvent {
        code,
        control: false,
        alt: false,
    }
}

fn text(line: &StyledLine) -> String {
    line.spans.iter().map(|span| span.text.as_str()).collect()
}

#[test]
fn enhance_prompt_keeps_original_prompt_and_adds_execution_guidance() {
    let preview = enhance_prompt("fix login bug");

    assert_eq!(preview.original_prompt, "fix login bug");
    assert!(preview.understanding.contains("fix login bug"));
    assert!(preview.enhanced_prompt.contains("Task: fix login bug"));
    assert!(preview
        .enhanced_prompt
        .contains("Run the most relevant formatter and tests"));
}

#[test]
fn summarize_recent_commits_uses_git_history_guidance() {
    let preview = enhance_prompt("Summarize recent commits");

    assert_eq!(preview.original_prompt, "Summarize recent commits");
    assert!(preview.understanding.contains("recent Git history"));
    assert!(preview.enhanced_prompt.contains("git log"));
    assert!(preview.enhanced_prompt.contains("commit range"));
    assert!(!preview.enhanced_prompt.contains("Implement the change"));
}

#[test]
fn conversational_prompt_is_not_enhanced() {
    let preview = enhance_prompt("hello");

    assert_eq!(
        preview,
        PromptPilotPreview {
            original_prompt: "hello".to_string(),
            understanding: "Codex should respond directly to the user's prompt without expanding it into a coding task: \"hello\".".to_string(),
            enhanced_prompt: "hello".to_string(),
        }
    );
}

#[test]
fn enter_accepts_enhanced_prompt() {
    let preview = enhance_prompt("fix login bug");
    let expected = preview.enhanced_prompt.clone();
    let mut view = PromptPilotPreviewView::new(preview);

    view.handle_key_event(key(KeyCode::Enter));

    assert_eq!(view.completion(), Some(ViewCompletion::Accepted));
    assert_eq!(view.take_composer_replacement(), Some(expected));
}

#[test]
fn esc_cancels_without_replacement() {
    let mut view = PromptPilotPreviewView::new(enhance_prompt("fix login bug"));

    view.handle_key_event(key(KeyCode::Esc));

    assert_eq!(view.completion(), Some(ViewCompletion::Cancelled));
    assert_eq!(view.take_composer_replacement(), None);
}

#[test]
fn intents() {
    assert_eq!(detect_intent(""), PromptIntent::KeepOriginal);
    assert_eq!(detect_intent("HELLO"), PromptIntent::KeepOriginal);
    assert_eq!(detect_intent("你好"), PromptIntent::KeepOriginal);
    assert_eq!(detect_intent("what is this?"), PromptIntent::KeepOriginal);
    assert_eq!(detect_intent("总结最近的提交"), PromptIntent::SummarizeRecentCommits);
    assert_eq!(detect_intent("Summary of COMMITS"), PromptIntent::SummarizeRecentCommits);
    assert_eq!(detect_intent("commit this"), PromptIntent::CodingTask);
}

#[test]
fn rules_write_exact_texts() {
    let preview = enhance_prompt("  fix it  ");
    assert_eq!(
        preview.understanding,
        "Codex should treat this as a focused coding task based on the user's draft: \"fix it\". The agent should inspect the relevant code first, keep the change scoped, and verify the result with the most relevant local checks."
    );
    assert_eq!(
        preview.enhanced_prompt,
        "Task: fix it\n\nPlease work through this as a focused coding-agent task:\n\n1. Inspect the relevant code path and summarize the current behavior before editing.\n2. Identify the smallest scoped change that satisfies the task.\n3. Implement the change using existing project conventions.\n4. Add or update focused tests when behavior changes.\n5. Run the most relevant formatter and tests, then report what passed or could not be run."
    );
}

#[test]
fn letters_apply_and_cancel_without_control_and_alt() {
    for (code, completion) in [
        (KeyCode::Char('a'), Some(ViewCompletion::Accepted)),
        (KeyCode::Char('A'), Some(ViewCompletion::Accepted)),
        (KeyCode::Char('c'), Some(ViewCompletion::Cancelled)),
        (KeyCode::Char('Q'), Some(ViewCompletion::Cancelled)),
        (KeyCode::Char('x'), None),
        (KeyCode::Other, None),
    ] {
        let mut view = PromptPilotPreviewView::new(enhance_prompt("fix login bug"));
        view.handle_key_event(KeyEvent {
            code,
            control: true,
            alt: false,
        });
        assert_eq!(view.completion(), None);
        view.handle_key_event(KeyEvent {
            code,
            control: false,
            alt: true,
        });
        assert_eq!(view.completion(), None);
        view.handle_key_event(key(code));
        assert_eq!(view.completion(), completion);
        assert_eq!(
            view.take_composer_replacement().is_some(),
            completion == Some(ViewCompletion::Accepted)
        );
        assert_eq!(view.take_composer_replacement(), None);
    }
}

#[test]
fn preview_shows_its_three_texts() {
    let view = PromptPilotPreviewView::new(PromptPilotPreview::new(
        "fix".to_string(),
        "one two".to_string(),
        "three four five".to_string(),
    ));
    let lines: Vec<String> = view.lines(10).iter().map(text).collect();
    assert_eq!(
        lines,
        vec![
            "PromptPilot",
            "",
            "Interpreted intent",
            "one two",
            "",
            "Original prompt",
            "> fix",
            "",
            "Enhanced prompt",
            "three four",
            "five",
            "",
            "Scroll: ↑/↓ wheel PgUp/PgDn   Enter/A apply   Esc cancel",
        ]
    );
    let styled = view.lines(10);
    assert_eq!(styled[8].spans[0].style.color, Color::Green);
    assert!(styled[3].spans[0].style.dim);
    assert!(!styled[9].spans[0].style.dim);
    assert_eq!(view.desired_height(10, 2), 15);
    assert_eq!(view.desired_height(10, 0), 13);
    assert_eq!(view.desired_height(10, u16::MAX), 28);
}
