use prompt_pilot::preview::PromptPilotPreview;
use prompt_pilot::progress::AceProgress;
use prompt_pilot::session::{ActiveView, PromptPilotSession};
use prompt_pilot::views::{KeyCode, KeyEvent};

fn ctrl_x() -> KeyEvent {
    KeyEvent {
        code: KeyCode::Char('x'),
        control: true,
        alt: false,
    }
}

fn key(code: KeyCode) -> KeyEvent {
    KeyEvent {
        code,
        control: false,
        alt: false,
    }
}

fn session(draft: &str) -> PromptPilotSession {
    let mut chat = PromptPilotSession::new(false);
    chat.set_composer_text(draft.to_string());
    chat
}

#[test]
fn ctrl_x_starts_prompt_pilot_enhancement() {
    let mut chat = session("fix login bug");

    let request = chat.handle_key_event(ctrl_x()).expect("request");

    assert_eq!(chat.active_view_id(), Some("prompt_pilot_loading"));
    assert_eq!(request.request_id, 0);
    assert_eq!(request.prompt, "fix login bug");
    assert!(!request.context_aware);
}

#[test]
fn ctrl_x_uses_ace_when_session_context_is_on() {
    let mut chat = session("fix login bug");
    chat.set_prompt_pilot_ace_enabled(/*enabled*/ true);

    let request = chat.handle_key_event(ctrl_x()).expect("request");

    assert_eq!(chat.active_view_id(), Some("prompt_pilot_loading"));
    assert_eq!(request.request_id, 0);
    assert_eq!(request.prompt, "fix login bug");
    assert!(request.context_aware);
}

#[test]
fn prompt_pilot_apply_replaces_composer_without_submitting() {
    let mut chat = session("fix login bug");

    chat.handle_key_event(ctrl_x());
    chat.on_prompt_pilot_enhance_result(
        0,
        Ok(PromptPilotPreview::new(
            "fix login bug".to_string(),
            "Codex should investigate and fix the login bug.".to_string(),
            "Investigate and fix the login bug in this codebase.".to_string(),
        )),
    );
    assert_eq!(chat.active_view_id(), Some("prompt_pilot_preview"));
    assert!(chat.handle_key_event(key(KeyCode::Enter)).is_none());

    assert_eq!(chat.active_view_id(), None);
    assert_eq!(
        chat.composer_text(),
        "Investigate and fix the login bug in this codebase."
    );
}

#[test]
fn prompt_pilot_cancel_preserves_original_composer() {
    let mut chat = session("fix login bug");

    chat.handle_key_event(ctrl_x());
    chat.handle_key_event(key(KeyCode::Esc));

    assert_eq!(chat.active_view_id(), None);
    assert_eq!(chat.composer_text(), "fix login bug");
}

#[test]
fn prompt_pilot_ace_failure_restores_original_composer() {
    let mut chat = session("fix login bug");
    chat.set_prompt_pilot_ace_enabled(/*enabled*/ true);

    chat.handle_key_event(ctrl_x());
    let shown = chat.on_prompt_pilot_enhance_result(
        0,
        Err("PromptPilot ACE skipped enhancement because guardrails failed.".to_string()),
    );

    assert_eq!(chat.active_view_id(), None);
    assert_eq!(chat.composer_text(), "fix login bug");
    assert_eq!(
        shown,
        Some("PromptPilot ACE skipped enhancement because guardrails failed.".to_string())
    );
}

#[test]
fn prompt_pilot_result_is_ignored_after_cancel() {
    let mut chat = session("hello");

    chat.handle_key_event(ctrl_x());
    chat.handle_key_event(key(KeyCode::Esc));
    chat.on_prompt_pilot_enhance_result(
        0,
        Ok(PromptPilotPreview::new(
            "hello".to_string(),
            "Codex should respond to the greeting.".to_string(),
            "hello".to_string(),
        )),
    );

    assert_eq!(chat.active_view_id(), None);
    assert_eq!(chat.composer_text(), "hello");
}

#[test]
fn reports_and_results_of_other_requests_are_ignored() {
    let mut chat = PromptPilotSession::new(true);
    chat.set_composer_text("fix".to_string());
    chat.handle_key_event(ctrl_x());
    chat.on_prompt_pilot_enhance_progress(7, AceProgress::building_prompt());
    assert!(matches!(
        chat.active_view(),
        ActiveView::Loading { request_id: 0, view } if view.lines(80)[2].spans[0].text == "  "
    ));
    chat.on_prompt_pilot_enhance_progress(0, AceProgress::building_prompt());
    assert!(matches!(
        chat.active_view(),
        ActiveView::Loading { request_id: 0, view } if view.lines(80)[2].spans[0].text == "… "
    ));
    assert_eq!(chat.on_prompt_pilot_enhance_result(1, Err("late".to_string())), None);
    assert_eq!(chat.active_view_id(), Some("prompt_pilot_loading"));
    assert!(chat.handle_key_event(ctrl_x()).is_none());
    chat.handle_key_event(key(KeyCode::Esc));
    assert_eq!(chat.handle_key_event(ctrl_x()).map(|request| request.request_id), Some(1));
    assert!(session("x").handle_key_event(key(KeyCode::Char('x'))).is_none());
}
