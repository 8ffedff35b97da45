//! The prompt pilot beside a composer: it enhances the draft on a key, shows the preview, and
//! replaces the draft where the preview is applied. It never submits anything.
use vstd::prelude::*;
use crate::preview::{Preview, PromptPilotPreview};
use crate::progress::{AceProgress, Progress};
use crate::views::{
    applies, fresh_preview, loading_key, preview_key, KeyCode, KeyEvent, LoadingState, PreviewState,
    PromptPilotLoadingView, PromptPilotPreviewView, LOADING_VIEW_ID, PREVIEW_VIEW_ID,
};

verus! {

/// What is shown: the composer, or a view in its place.
pub enum ActiveView {
    Composer,
    Loading { request_id: u64, view: PromptPilotLoadingView },
    Preview { view: PromptPilotPreviewView },
}

/// The model of an [`ActiveView`].
pub enum SessionView {
    Composer,
    Loading { request_id: u64, view: LoadingState },
    Preview { view: PreviewState },
}

impl View for ActiveView {
    type V = SessionView;

    open spec fn view(&self) -> SessionView {
        match self {
            ActiveView::Composer => SessionView::Composer,
            ActiveView::Loading { request_id, view } => SessionView::Loading {
                request_id: *request_id,
                view: view@,
            },
            ActiveView::Preview { view } => SessionView::Preview { view: view@ },
        }
    }
}

/// The prompt pilot of a session.
pub struct PromptPilotSession {
    composer: String,
    ace_enabled: bool,
    next_request_id: u64,
    active: ActiveView,
}

/// The model of a [`PromptPilotSession`].
#[verifier::ext_equal]
pub struct SessionState {
    pub composer: Seq<char>,
    pub ace_enabled: bool,
    pub next_request_id: u64,
    pub view: SessionView,
}

impl View for PromptPilotSession {
    type V = SessionState;

    closed spec fn view(&self) -> SessionState {
        SessionState {
            composer: self.composer@,
            ace_enabled: self.ace_enabled,
            next_request_id: self.next_request_id,
            view: self.active@,
        }
    }
}

/// A request to enhance the draft.
#[derive(Clone, Debug, PartialEq, Eq)]
pub struct EnhanceRequest {
    pub request_id: u64,
    pub prompt: String,
    pub context_aware: bool,
}

/// Whether a key asks to enhance the draft.
pub open spec fn is_enhance_key(key: KeyEvent) -> bool {
    key.code == KeyCode::Char('x') && key.control && !key.alt
}

/// The view that is shown while the draft is enhanced.
pub open spec fn loading_view(s: SessionState) -> LoadingState {
    LoadingState {
        original_prompt: s.composer,
        progress: if s.ace_enabled {
            Some(Progress::none())
        } else {
            None
        },
        completion: None,
        scroll_top: 0,
    }
}

/// The session once the draft is being enhanced.
pub open spec fn session_started(s: SessionState) -> SessionState {
    SessionState {
        next_request_id: if s.next_request_id == u64::MAX {
            0
        } else {
            (s.next_request_id + 1) as u64
        },
        view: SessionView::Loading { request_id: s.next_request_id, view: loading_view(s) },
        ..s
    }
}

/// The session after a key: it goes to the view that is shown, which is closed when it has ended;
/// a preview that is applied replaces the draft. Without a view, one key starts an enhancement.
pub open spec fn session_key(s: SessionState, key: KeyEvent) -> SessionState {
    match s.view {
        SessionView::Composer => if is_enhance_key(key) {
            session_started(s)
        } else {
            s
        },
        SessionView::Loading { request_id, view } => {
            let after = loading_key(view, key.code);
            if after.completion is Some {
                SessionState { view: SessionView::Composer, ..s }
            } else {
                SessionState { view: SessionView::Loading { request_id, view: after }, ..s }
            }
        },
        SessionView::Preview { view } => {
            let after = preview_key(view, key);
            if after.completion is Some {
                SessionState {
                    view: SessionView::Composer,
                    composer: match after.composer_replacement {
                        Some(text) => text,
                        None => s.composer,
                    },
                    ..s
                }
            } else {
                SessionState { view: SessionView::Preview { view: after }, ..s }
            }
        },
    }
}

/// Whether the session waits for the result of this request.
pub open spec fn waits_for(s: SessionState, request_id: u64) -> bool {
    s.view matches SessionView::Loading { request_id: id, .. } && id == request_id
}

/// The session after the result of a request: the preview is shown, or a failure closes the view;
/// a result that is not waited for is ignored.
pub open spec fn session_result(
    s: SessionState,
    request_id: u64,
    result: Result<Preview, Seq<char>>,
) -> SessionState {
    if waits_for(s, request_id) {
        SessionState {
            view: match result {
                Ok(preview) => SessionView::Preview { view: fresh_preview(preview) },
                Err(_) => SessionView::Composer,
            },
            ..s
        }
    } else {
        s
    }
}

/// The session after a report on a request; one that is not waited for is ignored.
pub open spec fn session_report(s: SessionState, request_id: u64, progress: Progress) -> SessionState {
    match s.view {
        SessionView::Loading { request_id: id, view } => if id == request_id && view.progress is Some {
            SessionState {
                view: SessionView::Loading {
                    request_id: id,
                    view: LoadingState { progress: Some(progress), ..view },
                },
                ..s
            }
        } else {
            s
        },
        _ => s,
    }
}

/// What holds of a session at all times: a view that has ended is not shown, and nothing waits to
/// replace the draft.
pub open spec fn session_wf(s: SessionState) -> bool {
    match s.view {
        SessionView::Composer => true,
        SessionView::Loading { view, .. } => view.completion is None,
        SessionView::Preview { view } => view.completion is None
            && view.composer_replacement is None,
    }
}

/// The model of a result with a preview.
pub open spec fn preview_result(result: Result<PromptPilotPreview, String>) -> Result<
    Preview,
    Seq<char>,
> {
    match result {
        Ok(preview) => Ok(preview@),
        Err(message) => Err(message@),
    }
}

impl PromptPilotSession {
    /// A session with an empty draft; whether project context is used is configured.
    pub fn new(ace_default_enabled: bool) -> (r: Self)
        ensures
            r@ == (SessionState {
                composer: Seq::empty(),
                ace_enabled: ace_default_enabled,
                next_request_id: 0,
                view: SessionView::Composer,
            }),
    {
        PromptPilotSession {
            composer: String::new(),
            ace_enabled: ace_default_enabled,
            next_request_id: 0,
            active: ActiveView::Composer,
        }
    }

    /// Whether project context is used from now on, in this session.
    pub fn set_prompt_pilot_ace_enabled(&mut self, enabled: bool)
        ensures
            final(self)@ == (SessionState { ace_enabled: enabled, ..old(self)@ }),
    {
        self.ace_enabled = enabled;
    }

    /// Sets the draft.
    pub fn set_composer_text(&mut self, text: String)
        ensures
            final(self)@ == (SessionState { composer: text@, ..old(self)@ }),
    {
        self.composer = text;
    }

    /// The draft.
    pub fn composer_text(&self) -> (r: &str)
        ensures
            r@ == self@.composer,
    {
        self.composer.as_str()
    }

    /// The name of the view that is shown.
    pub fn active_view_id(&self) -> (r: Option<&'static str>)
        ensures
            match self@.view {
                SessionView::Composer => r is None,
                SessionView::Loading { .. } => r is Some && r->Some_0@ == LOADING_VIEW_ID@,
                SessionView::Preview { .. } => r is Some && r->Some_0@ == PREVIEW_VIEW_ID@,
            },
    {
        match &self.active {
            ActiveView::Composer => None,
            ActiveView::Loading { view, .. } => view.view_id(),
            ActiveView::Preview { view } => view.view_id(),
        }
    }

    /// What is shown in place of the composer.
    pub fn active_view(&self) -> (r: &ActiveView)
        ensures
            r@ == self@.view,
    {
        &self.active
    }

    /// Reacts to a key; where it starts an enhancement, the request for it.
    pub fn handle_key_event(&mut self, key: KeyEvent) -> (r: Option<EnhanceRequest>)
        ensures
            final(self)@ == session_key(old(self)@, key),
            r is Some <==> old(self)@.view == SessionView::Composer && is_enhance_key(key),
            r matches Some(request) ==> request.request_id == old(self)@.next_request_id
                && request.prompt@ == old(self)@.composer && request.context_aware
                == old(self)@.ace_enabled,
    {
        let mut active = ActiveView::Composer;
        std::mem::swap(&mut active, &mut self.active);
        match active {
            ActiveView::Composer => {
                if is_enhance(key) {
                    return Some(self.start());
                }
            },
            ActiveView::Loading { request_id, view } => {
                let mut view = view;
                view.handle_key_event(key);
                if !view.is_complete() {
                    self.active = ActiveView::Loading { request_id, view };
                }
            },
            ActiveView::Preview { view } => {
                let mut view = view;
                view.handle_key_event(key);
                if view.is_complete() {
                    if let Some(text) = view.take_composer_replacement() {
                        self.composer = text;
                    }
                } else {
                    self.active = ActiveView::Preview { view };
                }
            },
        }
        None
    }

    fn start(&mut self) -> (request: EnhanceRequest)
        requires
            old(self)@.view == SessionView::Composer,
        ensures
            final(self)@ == session_started(old(self)@),
            request.request_id == old(self)@.next_request_id,
            request.prompt@ == old(self)@.composer,
            request.context_aware == old(self)@.ace_enabled,
    {
        let request_id: u64 = self.next_request_id;
        self.next_request_id = if request_id == u64::MAX {
            0
        } else {
            request_id + 1
        };
        let view = if self.ace_enabled {
            PromptPilotLoadingView::new_ace(self.composer.clone())
        } else {
            PromptPilotLoadingView::new(self.composer.clone())
        };
        self.active = ActiveView::Loading { request_id, view };
        EnhanceRequest {
            request_id,
            prompt: self.composer.clone(),
            context_aware: self.ace_enabled,
        }
    }

    /// Takes up the result of a request; the message to show where it failed.
    pub fn on_prompt_pilot_enhance_result(
        &mut self,
        request_id: u64,
        result: Result<PromptPilotPreview, String>,
    ) -> (r: Option<String>)
        ensures
            final(self)@ == session_result(old(self)@, request_id, preview_result(result)),
            r is Some <==> waits_for(old(self)@, request_id) && result is Err,
            r matches Some(message) ==> result == Err::<PromptPilotPreview, String>(message),
    {
        let waiting = match &self.active {
            ActiveView::Loading { request_id: id, .. } => *id == request_id,
            _ => false,
        };
        if !waiting {
            return None;
        }
        match result {
            Ok(preview) => {
                self.active = ActiveView::Preview { view: PromptPilotPreviewView::new(preview) };
                None
            },
            Err(message) => {
                self.active = ActiveView::Composer;
                Some(message)
            },
        }
    }

    /// Takes up a report on a request.
    pub fn on_prompt_pilot_enhance_progress(&mut self, request_id: u64, progress: AceProgress)
        ensures
            final(self)@ == session_report(old(self)@, request_id, progress@),
    {
        let mut active = ActiveView::Composer;
        std::mem::swap(&mut active, &mut self.active);
        match active {
            ActiveView::Loading { request_id: id, view } => {
                let mut view = view;
                if id == request_id {
                    view.update_prompt_pilot_ace_progress(progress);
                }
                self.active = ActiveView::Loading { request_id: id, view };
            },
            other => {
                self.active = other;
            },
        }
    }
}

fn is_enhance(key: KeyEvent) -> (r: bool)
    ensures
        r == is_enhance_key(key),
{
    match key.code {
        KeyCode::Char(c) => c == 'x' && key.control && !key.alt,
        _ => false,
    }
}

/// What holds of a session at all times is kept by everything that happens to it.
pub proof fn law_session_wf(
    s: SessionState,
    key: KeyEvent,
    request_id: u64,
    result: Result<Preview, Seq<char>>,
    progress: Progress,
)
    requires
        session_wf(s),
    ensures
        session_wf(session_key(s, key)),
        session_wf(session_result(s, request_id, result)),
        session_wf(session_report(s, request_id, progress)),
{
}

/// The draft changes in one way only: a preview that is shown is applied, and then it becomes the
/// enhanced prompt of that preview. No other key, no result and no report changes it.
pub proof fn law_draft_changes_by_applying_only(
    s: SessionState,
    key: KeyEvent,
    request_id: u64,
    result: Result<Preview, Seq<char>>,
    progress: Progress,
)
    requires
        session_wf(s),
    ensures
        session_key(s, key).composer == (match s.view {
            SessionView::Preview { view } => if applies(key) {
                view.preview.enhanced_prompt
            } else {
                s.composer
            },
            _ => s.composer,
        }),
        session_result(s, request_id, result).composer == s.composer,
        session_report(s, request_id, progress).composer == s.composer,
{
}

/// An enhancement that is applied: the draft is the enhanced prompt, and no view is shown.
pub proof fn law_apply(s: SessionState, preview: Preview, key: KeyEvent)
    requires
        s.view == SessionView::Composer,
        applies(key),
    ensures
        ({
            let waiting = session_started(s);
            let shown = session_result(waiting, s.next_request_id, Ok(preview));
            let after = session_key(shown, key);
            &&& waiting.composer == s.composer
            &&& after.composer == preview.enhanced_prompt
            &&& after.view == SessionView::Composer
        }),
{
}

/// An enhancement that fails, or that is cancelled while it is under way, leaves the draft as it
/// was and no view; a result that comes after that is ignored.
pub proof fn law_failure_and_cancel(
    s: SessionState,
    message: Seq<char>,
    escape: KeyEvent,
    late: Result<Preview, Seq<char>>,
)
    requires
        s.view == SessionView::Composer,
        escape.code == KeyCode::Esc,
    ensures
        ({
            let waiting = session_started(s);
            let failed = session_result(waiting, s.next_request_id, Err(message));
            let left = session_key(waiting, escape);
            &&& failed.composer == s.composer && failed.view == SessionView::Composer
            &&& left.composer == s.composer && left.view == SessionView::Composer
            &&& session_result(left, s.next_request_id, late) == left
        }),
{
}

/// A key that asks to enhance the draft shows that it is being done: for the draft as it is, under a
/// number that the next request does not have, with progress exactly where project context is used.
/// No other key does anything while no view is shown.
pub proof fn law_enhance_key(s: SessionState, key: KeyEvent)
    requires
        s.view == SessionView::Composer,
    ensures
        ({
            let t = session_key(s, key);
            let asks = key.code == KeyCode::Char('x') && key.control && !key.alt;
            &&& !asks ==> t == s
            &&& asks ==> ({
                &&& t.view matches SessionView::Loading { request_id, view } && request_id
                    == s.next_request_id && view.original_prompt == s.composer && (
                view.progress is Some <==> s.ace_enabled) && view.completion is None
                    && view.scroll_top == 0
                &&& t.next_request_id != s.next_request_id
                &&& s.next_request_id < u64::MAX ==> t.next_request_id == s.next_request_id + 1
                &&& t.composer == s.composer
                &&& t.ace_enabled == s.ace_enabled
            })
        }),
{
}

/// The result that is waited for shows its preview as a fresh one, or closes the view where it is a
/// failure; every other result, and every report that is not waited for, changes nothing. Neither
/// changes what is configured or what the next request is called.
pub proof fn law_results_and_reports(
    s: SessionState,
    request_id: u64,
    preview: Preview,
    message: Seq<char>,
    progress: Progress,
)
    ensures
        ({
            let waits = s.view matches SessionView::Loading { request_id: id, .. } && id
                == request_id;
            let shown = session_result(s, request_id, Ok(preview));
            let failed = session_result(s, request_id, Err(message));
            let told = session_report(s, request_id, progress);
            &&& waits ==> (shown.view matches SessionView::Preview { view } && view.preview
                == preview && view.completion is None && view.composer_replacement is None
                && view.scroll_top == 0)
            &&& waits ==> failed.view == SessionView::Composer
            &&& !waits ==> shown == s && failed == s && told == s
            &&& waits ==> (s.view matches SessionView::Loading { view: before, .. } && (
            told.view matches SessionView::Loading { request_id: id, view: after } && id
                == request_id && after.original_prompt == before.original_prompt
                && after.scroll_top == before.scroll_top && after.completion == before.completion
                && after.progress == (if before.progress is Some {
                Some(progress)
            } else {
                None
            })))
            &&& shown.composer == s.composer && failed.composer == s.composer && told.composer
                == s.composer
            &&& shown.ace_enabled == s.ace_enabled && failed.ace_enabled == s.ace_enabled
                && told.ace_enabled == s.ace_enabled
            &&& shown.next_request_id == s.next_request_id && failed.next_request_id
                == s.next_request_id && told.next_request_id == s.next_request_id
        }),
{
}

/// While an enhancement is under way the escape key ends it, and every other key leaves it under way
/// with the same prompt and progress. While a preview is shown the keys that apply or cancel it close
/// it, and every other key leaves the same preview shown.
pub proof fn law_keys_of_views(s: SessionState, key: KeyEvent)
    requires
        session_wf(s),
    ensures
        s.view matches SessionView::Loading { request_id, view } ==> ({
            let t = session_key(s, key);
            &&& key.code == KeyCode::Esc <==> t.view == SessionView::Composer
            &&& key.code != KeyCode::Esc ==> (t.view matches SessionView::Loading {
                request_id: id,
                view: after,
            } && id == request_id && after.original_prompt == view.original_prompt && after.progress
                == view.progress)
            &&& t.composer == s.composer
        }),
        s.view matches SessionView::Preview { view } ==> ({
            let t = session_key(s, key);
            let plain = !key.control && !key.alt;
            let applied = key.code == KeyCode::Enter || plain && (key.code == KeyCode::Char('a')
                || key.code == KeyCode::Char('A'));
            let cancelled = key.code == KeyCode::Esc || plain && (key.code == KeyCode::Char('c')
                || key.code == KeyCode::Char('C') || key.code == KeyCode::Char('q') || key.code
                == KeyCode::Char('Q'));
            &&& applied ==> t.composer == view.preview.enhanced_prompt
            &&& !applied ==> t.composer == s.composer
            &&& applied || cancelled <==> t.view == SessionView::Composer
            &&& !applied && !cancelled ==> (t.view matches SessionView::Preview { view: after }
                && after.preview == view.preview)
        }),
{
}

/// A request that has just been made has nothing to tell yet, and its number is the first after the
/// largest one.
pub proof fn law_new_request(s: SessionState)
    ensures
        ({
            let t = session_started(s);
            &&& t.view matches SessionView::Loading { view, .. } && (view.progress matches Some(
                progress,
            ) ==> progress.notes.len() == 0 && progress.completed.len() == 0
                && progress.current is None)
            &&& s.next_request_id == u64::MAX ==> t.next_request_id == 0
        }),
{
}

/// Keys that neither end a view nor ask for an enhancement scroll what is shown and leave all else.
pub proof fn law_scrolling_keys(s: SessionState, key: KeyEvent)
    requires
        session_wf(s),
        key.code == KeyCode::Up || key.code == KeyCode::Down || key.code == KeyCode::PageUp
            || key.code == KeyCode::PageDown || key.code == KeyCode::Home || key.code
            == KeyCode::End,
    ensures
        ({
            let t = session_key(s, key);
            &&& t.composer == s.composer && t.next_request_id == s.next_request_id && t.ace_enabled
                == s.ace_enabled
            &&& s.view matches SessionView::Loading { request_id, view } ==> (
            t.view matches SessionView::Loading { request_id: id, view: after } && id == request_id
                && Some(after.scroll_top) == crate::views::scrolled(key.code, view.scroll_top))
            &&& s.view matches SessionView::Preview { view } ==> (
            t.view matches SessionView::Preview { view: after } && Some(after.scroll_top)
                == crate::views::scrolled(key.code, view.scroll_top))
            &&& s.view == SessionView::Composer ==> t == s
        }),
{
}

} // verus!
