use prompt_pilot::preview::enhance_prompt;
use prompt_pilot::progress::{AceProgress, AceProgressStep};
use prompt_pilot::views::{
    progress_line, push_marked, push_wrapped_bullet, CancellationEvent, Color, KeyCode, KeyEvent,
    MouseEventKind, PromptPilotLoadingView, PromptPilotPreviewView, StyledLine, TextStyle,
    ViewCompletion, LOADING_VIEW_ID, PREVIEW_VIEW_ID,
};

fn key(code: KeyCode) -> KeyEvent {
    KeyEvent {
        code,
        control: false,
        alt: false,
    }
}

fn text(line: &StyledLine) -> String {
    line.spans.iter().map(|span| span.text.as_str()).collect()
}

fn texts(lines: &[StyledLine]) -> Vec<String> {
    lines.iter().map(text).collect()
}

#[test]
fn standard_loading_view() {
    let view = PromptPilotLoadingView::new("fix login bug".to_string());
    assert_eq!(
        texts(&view.lines(80)),
        vec![
            "PromptPilot",
            "",
            "Enhancing prompt with Codex",
            "Waiting for the model to refine this draft.",
            "",
            "Original prompt",
            "> fix login bug",
            "",
            "Esc cancel",
        ]
    );
    assert_eq!(
        texts(&view.lines(0))[6..9],
        ["> f".to_string(), "> i".to_string(), "> x".to_string()]
    );
    assert_eq!(view.view_id(), Some(LOADING_VIEW_ID));
    assert!(view.wants_mouse_capture());
}

#[test]
fn loading_view_with_project_context() {
    let mut view = PromptPilotLoadingView::new_ace("fix login bug".to_string());
    assert_eq!(
        texts(&view.lines(80)),
        vec![
            "PromptPilot ACE",
            "",
            "  generating enhanced prompt",
            "  reviewing guardrails",
            "",
            "Original prompt",
            "> fix login bug",
            "",
            "Scroll: ↑/↓ wheel PgUp/PgDn   Esc cancel",
        ]
    );
    let mut progress = AceProgress::running(AceProgressStep::ReviewingGuardrails);
    progress.add_note("one note that is long".to_string());
    progress.add_note("  ".to_string());
    assert!(view.update_prompt_pilot_ace_progress(progress));
    let mut same = AceProgress::running(AceProgressStep::ReviewingGuardrails);
    same.add_note("one note that is long".to_string());
    assert!(!view.update_ace_progress(same));
    assert_eq!(
        texts(&view.lines(12))[..8],
        [
            "PromptPilot ACE",
            "",
            "✓ generating enhanced prompt",
            "… reviewing guardrails",
            "",
            "Context steps",
            "• one note",
            "  that is",
        ]
    );
}

#[test]
fn standard_view_takes_no_reports() {
    let mut view = PromptPilotLoadingView::new("x".to_string());
    assert!(!view.update_ace_progress(AceProgress::building_prompt()));
    assert_eq!(text(&view.lines(80)[0]), "PromptPilot");
}

#[test]
fn loading_view_is_cancelled_by_escape_only() {
    let mut view = PromptPilotLoadingView::new("x".to_string());
    for code in [KeyCode::Enter, KeyCode::Char('q'), KeyCode::Up, KeyCode::End] {
        view.handle_key_event(key(code));
        assert!(!view.is_complete());
    }
    view.handle_key_event(key(KeyCode::Esc));
    assert!(view.is_complete());
    assert_eq!(view.completion(), Some(ViewCompletion::Cancelled));
    assert_eq!(view.on_ctrl_c(), CancellationEvent::Handled);
}

#[test]
fn views_scroll_no_further_than_their_last_line() {
    let mut view = PromptPilotPreviewView::new(enhance_prompt("fix login bug"));
    let all = texts(&view.lines(40));
    assert_eq!(view.view_id(), Some(PREVIEW_VIEW_ID));
    assert_eq!(texts(&view.visible_lines(40, 5)), all[..5]);
    view.handle_key_event(key(KeyCode::Char('j')));
    view.handle_key_event(key(KeyCode::Down));
    assert_eq!(texts(&view.visible_lines(40, 5)), all[2..7]);
    view.handle_key_event(key(KeyCode::PageDown));
    view.handle_key_event(key(KeyCode::Up));
    assert_eq!(texts(&view.visible_lines(40, 5)), all[9..14]);
    view.handle_key_event(key(KeyCode::End));
    assert_eq!(texts(&view.visible_lines(40, 5)), all[all.len() - 5..]);
    view.handle_key_event(key(KeyCode::Down));
    assert_eq!(texts(&view.visible_lines(40, 5)), all[all.len() - 5..]);
    view.handle_key_event(key(KeyCode::Home));
    assert!(view.handle_mouse_event(MouseEventKind::ScrollDown));
    assert_eq!(texts(&view.visible_lines(40, 5)), all[3..8]);
    assert!(view.handle_mouse_event(MouseEventKind::ScrollUp));
    view.handle_key_event(key(KeyCode::PageUp));
    assert!(!view.handle_mouse_event(MouseEventKind::Other));
    assert_eq!(texts(&view.visible_lines(40, 200)), all);
    assert!(view.visible_lines(40, 0).is_empty());
    assert_eq!(view.desired_height(40, 2), 28);
}

#[test]
fn short_views_want_eight_rows() {
    let view = PromptPilotLoadingView::new(String::new());
    assert_eq!(view.lines(80).len(), 9);
    assert_eq!(view.desired_height(80, 2), 11);
    assert_eq!(view.desired_height(0, 0), 9);
}

#[test]
fn marked_lines() {
    let style = TextStyle {
        color: Color::Cyan,
        bold: true,
        dim: false,
    };
    let mut lines: Vec<StyledLine> = Vec::new();
    push_marked(&mut lines, &vec!["a".to_string(), "b".to_string()], "* ", "  ", style);
    assert_eq!(texts(&lines), vec!["* a", "  b"]);
    assert_eq!(lines[1].spans[0].style, style);
    push_wrapped_bullet(&mut lines, "one two", 5);
    assert_eq!(texts(&lines)[2..], ["• one".to_string(), "  two".to_string()]);
    let line = progress_line(&AceProgress::new(), AceProgressStep::GeneratingEnhancedPrompt);
    assert_eq!(text(&line), "  generating enhanced prompt");
}

#[test]
fn progress_goes_through_its_steps() {
    let mut progress = AceProgress::new();
    assert_eq!(progress.current(), None);
    progress.start(AceProgressStep::GeneratingEnhancedPrompt);
    assert_eq!(progress.current(), Some(AceProgressStep::GeneratingEnhancedPrompt));
    progress.complete(AceProgressStep::GeneratingEnhancedPrompt);
    assert_eq!(progress.current(), None);
    progress.start(AceProgressStep::GeneratingEnhancedPrompt);
    assert_eq!(progress.current(), None);
    assert!(progress.is_complete(AceProgressStep::GeneratingEnhancedPrompt));
    assert!(!progress.is_complete(AceProgressStep::ReviewingGuardrails));
    progress.add_note(" \n".to_string());
    progress.add_note(" note ".to_string());
    assert_eq!(progress.notes().clone(), vec![" note ".to_string()]);
    assert_eq!(AceProgressStep::in_order().len(), 2);
    assert_eq!(AceProgressStep::ReviewingGuardrails.label(), "reviewing guardrails");
}
