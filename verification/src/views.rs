//! The two views of the prompt pilot: the one that is shown while a prompt is enhanced, and the
//! preview of the enhanced prompt.
use vstd::prelude::*;
use crate::bytes::byte_count;
use crate::preview::{Preview, PromptPilotPreview};
use crate::progress::{AceProgress, AceProgressStep, Progress};
use crate::text::{has_char, lemma_take_push, only, texts, trimmed_end};

verus! {

/// The name of the view that is shown while a prompt is enhanced.
pub const LOADING_VIEW_ID: &'static str = "prompt_pilot_loading";

/// The name of the preview.
pub const PREVIEW_VIEW_ID: &'static str = "prompt_pilot_preview";

/// The fewest rows of a view.
pub const MIN_HEIGHT: u16 = 8;

/// The most rows of a view.
pub const MAX_HEIGHT: u16 = 28;

// ---------------------------------------------------------------------------
// Lines of styled text
// ---------------------------------------------------------------------------

/// A colour of text.
#[derive(Clone, Copy, Debug, PartialEq, Eq, Structural)]
pub enum Color {
    Plain,
    Cyan,
    Green,
}

/// How a text is shown.
#[derive(Clone, Copy, Debug, PartialEq, Eq, Structural)]
pub struct TextStyle {
    pub color: Color,
    pub bold: bool,
    pub dim: bool,
}

/// A text with its style.
#[derive(Clone, Debug, PartialEq, Eq)]
pub struct StyledSpan {
    pub text: String,
    pub style: TextStyle,
}

/// The model of a [`StyledSpan`].
#[verifier::ext_equal]
pub struct Span {
    pub text: Seq<char>,
    pub style: TextStyle,
}

impl View for StyledSpan {
    type V = Span;

    open spec fn view(&self) -> Span {
        Span { text: self.text@, style: self.style }
    }
}

/// A line of texts with their styles.
#[derive(Clone, Debug, PartialEq, Eq)]
pub struct StyledLine {
    pub spans: Vec<StyledSpan>,
}

impl View for StyledLine {
    type V = Seq<Span>;

    open spec fn view(&self) -> Seq<Span> {
        Seq::new(self.spans@.len(), |i: int| self.spans@[i]@)
    }
}

/// The models of a list of lines.
pub open spec fn line_views(lines: Seq<StyledLine>) -> Seq<Seq<Span>> {
    Seq::new(lines.len(), |i: int| lines[i]@)
}

/// The style with this colour and weight.
pub open spec fn style(color: Color, bold: bool, dim: bool) -> TextStyle {
    TextStyle { color, bold, dim }
}

/// A text as it is.
pub open spec fn plain(text: Seq<char>) -> Span {
    Span { text, style: style(Color::Plain, false, false) }
}

/// A text in grey.
pub open spec fn dim(text: Seq<char>) -> Span {
    Span { text, style: style(Color::Plain, false, true) }
}

/// A bold text.
pub open spec fn bold(text: Seq<char>) -> Span {
    Span { text, style: style(Color::Plain, true, false) }
}

/// A text in cyan.
pub open spec fn cyan(text: Seq<char>) -> Span {
    Span { text, style: style(Color::Cyan, false, false) }
}

/// A text in green.
pub open spec fn green(text: Seq<char>) -> Span {
    Span { text, style: style(Color::Green, false, false) }
}

/// A heading in cyan.
pub open spec fn cyan_heading(text: Seq<char>) -> Span {
    Span { text, style: style(Color::Cyan, true, false) }
}

/// A heading in green.
pub open spec fn green_heading(text: Seq<char>) -> Span {
    Span { text, style: style(Color::Green, true, false) }
}

/// The line without any text.
pub open spec fn empty_line() -> Seq<Span> {
    Seq::empty()
}

fn span(text: &str, color: Color, bold: bool, dim: bool) -> (r: StyledSpan)
    ensures
        r@ == (Span { text: text@, style: style(color, bold, dim) }),
{
    StyledSpan { text: text.to_owned(), style: TextStyle { color, bold, dim } }
}

fn push_line(lines: &mut Vec<StyledLine>, spans: Vec<StyledSpan>)
    ensures
        line_views(final(lines)@) == line_views(old(lines)@).push(
            Seq::new(spans@.len(), |i: int| spans@[i]@),
        ),
{
    let ghost before = lines@;
    lines.push(StyledLine { spans });
    proof {
        assert(line_views(lines@) =~= line_views(before).push(
            Seq::new(spans@.len(), |i: int| spans@[i]@),
        ));
    }
}

fn push_span(lines: &mut Vec<StyledLine>, only_span: StyledSpan)
    ensures
        line_views(final(lines)@) == line_views(old(lines)@).push(seq![only_span@]),
{
    let mut spans: Vec<StyledSpan> = Vec::new();
    spans.push(only_span);
    proof {
        assert(Seq::new(spans@.len(), |i: int| spans@[i]@) =~= seq![only_span@]);
    }
    push_line(lines, spans);
}

fn push_empty(lines: &mut Vec<StyledLine>)
    ensures
        line_views(final(lines)@) == line_views(old(lines)@).push(empty_line()),
{
    let spans: Vec<StyledSpan> = Vec::new();
    proof {
        assert(Seq::new(spans@.len(), |i: int| spans@[i]@) =~= empty_line());
    }
    push_line(lines, spans);
}

// ---------------------------------------------------------------------------
// Wrapping
// ---------------------------------------------------------------------------

/// The lines that `textwrap::wrap` breaks a text into for a width.
pub uninterp spec fn wrapped(text: Seq<char>, width: usize) -> Seq<Seq<char>>;

/// `textwrap::wrap` with its default options for a width: the lines are a function of the text and
/// the width, and a text without line breaks and with fewer bytes than the width is one line, which
/// loses the spaces at its end. Where a longer text is broken is not stated.
#[verifier::external_body]
fn wrap_text(text: &str, width: usize) -> (r: Vec<String>)
    ensures
        texts(r@) == wrapped(text@, width),
        byte_count(text@) < width && !has_char(text@, '\n') ==> texts(r@) == seq![
            trimmed_end(text@, only(' ')),
        ],
{
    textwrap::wrap(text, width).into_iter().map(|line| line.into_owned()).collect()
}

/// The width that is left beside a mark of two columns.
pub open spec fn inner_width(width: usize) -> usize {
    if width > 2 {
        (width - 2) as usize
    } else {
        1
    }
}

fn width_beside_mark(width: usize) -> (r: usize)
    ensures
        r == inner_width(width),
{
    if width > 2 {
        width - 2
    } else {
        1
    }
}

/// Each text as a line of its own in one style, after a mark.
pub open spec fn marked_lines(
    parts: Seq<Seq<char>>,
    mark: Seq<char>,
    rest: Seq<char>,
    text_style: TextStyle,
) -> Seq<Seq<Span>> {
    Seq::new(
        parts.len(),
        |i: int|
            seq![
                Span {
                    text: if i == 0 {
                        mark + parts[i]
                    } else {
                        rest + parts[i]
                    },
                    style: text_style,
                },
            ],
    )
}

/// Adds texts that are broken into lines already, each as a line of its own after a mark.
pub fn push_marked(
    lines: &mut Vec<StyledLine>,
    parts: &Vec<String>,
    mark: &str,
    rest: &str,
    text_style: TextStyle,
)
    ensures
        line_views(final(lines)@) == line_views(old(lines)@) + marked_lines(
            texts(parts@),
            mark@,
            rest@,
            text_style,
        ),
{
    let ghost before = line_views(lines@);
    let ghost all = marked_lines(texts(parts@), mark@, rest@, text_style);
    let mut i: usize = 0;
    proof {
        assert(before + all.take(0) =~= before);
    }
    while i < parts.len()
        invariant
            i <= parts@.len(),
            all == marked_lines(texts(parts@), mark@, rest@, text_style),
            line_views(lines@) == before + all.take(i as int),
        decreases parts@.len() - i,
    {
        let mut text = if i == 0 {
            mark.to_owned()
        } else {
            rest.to_owned()
        };
        text.append(parts[i].as_str());
        push_span(lines, StyledSpan { text, style: text_style });
        proof {
            lemma_take_push(all, i as int);
            assert(texts(parts@)[i as int] == parts@[i as int]@);
            assert(all[i as int] =~= seq![Span { text: text@, style: text_style }]);
            assert((before + all.take(i as int)).push(all[i as int]) =~= before + all.take(
                i as int,
            ).push(all[i as int]));
        }
        i += 1;
    }
    proof {
        assert(texts(parts@).len() == parts@.len());
        assert(all.take(parts@.len() as int) =~= all);
    }
}

/// A wrapped text in one style.
pub open spec fn wrapped_lines(text: Seq<char>, width: usize, text_style: TextStyle) -> Seq<
    Seq<Span>,
> {
    marked_lines(wrapped(text, width), Seq::empty(), Seq::empty(), text_style)
}

/// A wrapped text as a quotation.
pub open spec fn quoted_lines(text: Seq<char>, width: usize) -> Seq<Seq<Span>> {
    marked_lines(
        wrapped(text, inner_width(width)),
        "> "@,
        "> "@,
        style(Color::Plain, false, true),
    )
}

/// A wrapped text after a bullet.
pub open spec fn bullet_lines(text: Seq<char>, width: usize) -> Seq<Seq<Span>> {
    marked_lines(
        wrapped(text, inner_width(width)),
        "• "@,
        "  "@,
        style(Color::Plain, false, true),
    )
}

fn push_wrapped(lines: &mut Vec<StyledLine>, text: &str, width: usize, text_style: TextStyle)
    ensures
        line_views(final(lines)@) == line_views(old(lines)@) + wrapped_lines(
            text@,
            width,
            text_style,
        ),
{
    proof {
        reveal_strlit("");
        assert(""@ =~= Seq::<char>::empty());
    }
    push_marked(lines, &wrap_text(text, width), "", "", text_style);
}

fn push_quoted(lines: &mut Vec<StyledLine>, text: &str, width: usize)
    ensures
        line_views(final(lines)@) == line_views(old(lines)@) + quoted_lines(text@, width),
{
    let parts = wrap_text(text, width_beside_mark(width));
    push_marked(
        lines,
        &parts,
        "> ",
        "> ",
        TextStyle { color: Color::Plain, bold: false, dim: true },
    );
}

/// Adds a wrapped text after a bullet.
pub fn push_wrapped_bullet(lines: &mut Vec<StyledLine>, text: &str, width: usize)
    ensures
        line_views(final(lines)@) == line_views(old(lines)@) + bullet_lines(text@, width),
{
    let parts = wrap_text(text, width_beside_mark(width));
    push_marked(
        lines,
        &parts,
        "• ",
        "  ",
        TextStyle { color: Color::Plain, bold: false, dim: true },
    );
}

// ---------------------------------------------------------------------------
// Progress
// ---------------------------------------------------------------------------

/// The line about a step: whether it is done, being done, or still to be done.
pub open spec fn progress_spans(progress: Progress, step: AceProgressStep) -> Seq<Span> {
    if progress.completed.contains(step) {
        seq![green("✓ "@), green(step.words())]
    } else if progress.current == Some(step) {
        seq![cyan("… "@), cyan_heading(step.words())]
    } else {
        seq![dim("  "@), dim(step.words())]
    }
}

/// The line about a step: whether it is done, being done, or still to be done.
pub fn progress_line(progress: &AceProgress, step: AceProgressStep) -> (r: StyledLine)
    ensures
        r@ == progress_spans(progress@, step),
{
    let mut spans: Vec<StyledSpan> = Vec::new();
    if progress.is_complete(step) {
        spans.push(span("✓ ", Color::Green, false, false));
        spans.push(span(step.label(), Color::Green, false, false));
    } else if is_current(progress, step) {
        spans.push(span("… ", Color::Cyan, false, false));
        spans.push(span(step.label(), Color::Cyan, true, false));
    } else {
        spans.push(span("  ", Color::Plain, false, true));
        spans.push(span(step.label(), Color::Plain, false, true));
    }
    let line = StyledLine { spans };
    proof {
        assert(line@ =~= progress_spans(progress@, step));
    }
    line
}

fn is_current(progress: &AceProgress, step: AceProgressStep) -> (r: bool)
    ensures
        r == (progress@.current == Some(step)),
{
    match progress.current() {
        Some(current) => current == step,
        None => false,
    }
}

/// The lines with the notes, each after a bullet.
pub open spec fn note_lines(notes: Seq<Seq<char>>, width: usize) -> Seq<Seq<Span>>
    decreases notes.len(),
{
    if notes.len() == 0 {
        Seq::empty()
    } else {
        note_lines(notes.drop_last(), width) + bullet_lines(notes.last(), width)
    }
}

// ---------------------------------------------------------------------------
// Keys and heights
// ---------------------------------------------------------------------------

/// A key that a view may react to.
#[derive(Clone, Copy, Debug, PartialEq, Eq, Structural)]
pub enum KeyCode {
    Esc,
    Enter,
    Up,
    Down,
    PageUp,
    PageDown,
    Home,
    End,
    Char(char),
    Other,
}

/// A key that is pressed, and whether the control and alt keys are held.
#[derive(Clone, Copy, Debug, PartialEq, Eq, Structural)]
pub struct KeyEvent {
    pub code: KeyCode,
    pub control: bool,
    pub alt: bool,
}

/// What the mouse does.
#[derive(Clone, Copy, Debug, PartialEq, Eq, Structural)]
pub enum MouseEventKind {
    ScrollUp,
    ScrollDown,
    Other,
}

/// How a view ended.
#[derive(Clone, Copy, Debug, PartialEq, Eq, Structural)]
pub enum ViewCompletion {
    Accepted,
    Cancelled,
}

/// Whether a view dealt with a wish to cancel.
#[derive(Clone, Copy, Debug, PartialEq, Eq, Structural)]
pub enum CancellationEvent {
    Handled,
    NotHandled,
}

/// The row `n` rows above `top`, or the first.
pub open spec fn rows_up(top: usize, n: usize) -> usize {
    if top >= n {
        (top - n) as usize
    } else {
        0
    }
}

/// The row `n` rows below `top`, or the last that can be counted.
pub open spec fn rows_down(top: usize, n: usize) -> usize {
    if top <= usize::MAX - n {
        (top + n) as usize
    } else {
        usize::MAX
    }
}

/// The top row after a key that scrolls; `None` for other keys.
pub open spec fn scrolled(code: KeyCode, top: usize) -> Option<usize> {
    match code {
        KeyCode::Up => Some(rows_up(top, 1)),
        KeyCode::Down => Some(rows_down(top, 1)),
        KeyCode::PageUp => Some(rows_up(top, 8)),
        KeyCode::PageDown => Some(rows_down(top, 8)),
        KeyCode::Home => Some(0),
        KeyCode::End => Some(usize::MAX),
        KeyCode::Char(c) => if c == 'k' {
            Some(rows_up(top, 1))
        } else if c == 'j' {
            Some(rows_down(top, 1))
        } else {
            None
        },
        _ => None,
    }
}

/// The top row after the mouse scrolls.
pub open spec fn mouse_scrolled(kind: MouseEventKind, top: usize) -> usize {
    match kind {
        MouseEventKind::ScrollUp => rows_up(top, 3),
        MouseEventKind::ScrollDown => rows_down(top, 3),
        MouseEventKind::Other => top,
    }
}

fn scroll(code: KeyCode, top: usize) -> (r: Option<usize>)
    ensures
        r == scrolled(code, top),
{
    match code {
        KeyCode::Up => Some(top.saturating_sub(1)),
        KeyCode::Down => Some(top.saturating_add(1)),
        KeyCode::PageUp => Some(top.saturating_sub(8)),
        KeyCode::PageDown => Some(top.saturating_add(8)),
        KeyCode::Home => Some(0),
        KeyCode::End => Some(usize::MAX),
        KeyCode::Char(c) => if c == 'k' {
            Some(top.saturating_sub(1))
        } else if c == 'j' {
            Some(top.saturating_add(1))
        } else {
            None
        },
        _ => None,
    }
}

fn mouse_scroll(kind: MouseEventKind, top: usize) -> (r: usize)
    ensures
        r == mouse_scrolled(kind, top),
{
    match kind {
        MouseEventKind::ScrollUp => top.saturating_sub(3),
        MouseEventKind::ScrollDown => top.saturating_add(3),
        MouseEventKind::Other => top,
    }
}

/// The rows that a view wants for its lines and the padding around them. The number of lines is
/// taken by its lowest sixteen bits.
pub open spec fn height_for(line_count: nat, padding: u16) -> int {
    let rows = line_count % 0x1_0000 + padding;
    if rows < MIN_HEIGHT {
        MIN_HEIGHT as int
    } else if rows > MAX_HEIGHT {
        MAX_HEIGHT as int
    } else {
        rows
    }
}

fn rows_for(line_count: usize, padding: u16) -> (r: u16)
    ensures
        r == height_for(line_count as nat, padding),
{
    let content: u16 = (line_count % 0x1_0000) as u16;
    let rows: u16 = content.saturating_add(padding);
    if rows < MIN_HEIGHT {
        MIN_HEIGHT
    } else if rows > MAX_HEIGHT {
        MAX_HEIGHT
    } else {
        rows
    }
}

/// The first line that is shown: where the view is scrolled to, but no further than the last lines
/// need.
pub open spec fn first_visible(line_count: nat, top: usize, height: u16) -> int {
    let last = if line_count > height {
        line_count - height
    } else {
        0
    };
    if top < last {
        top as int
    } else {
        last
    }
}

/// The lines that are shown in `height` rows.
pub open spec fn visible(lines: Seq<Seq<Span>>, top: usize, height: u16) -> Seq<Seq<Span>> {
    let first = first_visible(lines.len(), top, height);
    if first + height < lines.len() {
        lines.subrange(first, first + height)
    } else {
        lines.skip(first)
    }
}

/// As many lines are shown as there are rows, or all of them, wherever the view is scrolled to;
/// scrolled to the end, the last line is shown.
pub proof fn law_visible(lines: Seq<Seq<Span>>, top: usize, height: u16)
    ensures
        visible(lines, top, height).len() == (if lines.len() < height {
            lines.len() as int
        } else {
            height as int
        }),
        lines.len() > 0 && height > 0 && lines.len() <= usize::MAX ==> visible(
            lines,
            usize::MAX,
            height,
        ).last() == lines.last(),
{
}

fn take_visible(lines: Vec<StyledLine>, top: usize, height: u16) -> (r: Vec<StyledLine>)
    ensures
        line_views(r@) == visible(line_views(lines@), top, height),
{
    let ghost all = line_views(lines@);
    let n: usize = lines.len();
    let rows: usize = height as usize;
    let last: usize = n.saturating_sub(rows);
    let first: usize = if top < last {
        top
    } else {
        last
    };
    let mut lines = lines;
    proof {
        assert(all.len() == n);
    }
    let mut shown = lines.split_off(first);
    proof {
        assert(line_views(shown@) =~= all.skip(first as int));
    }
    if shown.len() > rows {
        let ghost before = shown@;
        shown.truncate(rows);
        proof {
            assert(line_views(shown@) =~= all.subrange(first as int, first + rows));
        }
    }
    shown
}

// ---------------------------------------------------------------------------
// The view that is shown while a prompt is enhanced
// ---------------------------------------------------------------------------

/// What is shown while a prompt is enhanced.
pub enum PromptPilotLoadingMode {
    Standard,
    Ace(AceProgress),
}

/// The view that is shown while a prompt is enhanced.
pub struct PromptPilotLoadingView {
    original_prompt: String,
    mode: PromptPilotLoadingMode,
    completion: Option<ViewCompletion>,
    scroll_top: usize,
}

/// The model of a [`PromptPilotLoadingView`].
#[verifier::ext_equal]
pub struct LoadingState {
    pub original_prompt: Seq<char>,
    /// The progress with project context, where that is used.
    pub progress: Option<Progress>,
    pub completion: Option<ViewCompletion>,
    pub scroll_top: usize,
}

impl View for PromptPilotLoadingView {
    type V = LoadingState;

    closed spec fn view(&self) -> LoadingState {
        LoadingState {
            original_prompt: self.original_prompt@,
            progress: match self.mode {
                PromptPilotLoadingMode::Standard => None,
                PromptPilotLoadingMode::Ace(progress) => Some(progress@),
            },
            completion: self.completion,
            scroll_top: self.scroll_top,
        }
    }
}

/// The lines without project context.
pub open spec fn standard_loading_lines(prompt: Seq<char>, width: usize) -> Seq<Seq<Span>> {
    seq![
        seq![bold("PromptPilot"@)],
        empty_line(),
        seq![cyan_heading("Enhancing prompt with Codex"@)],
        seq![dim("Waiting for the model to refine this draft."@)],
        empty_line(),
        seq![cyan_heading("Original prompt"@)],
    ] + quoted_lines(prompt, width) + seq![
        empty_line(),
        seq![cyan("Esc"@), plain(" cancel"@)],
    ]
}

/// The first lines with project context.
pub open spec fn ace_head(progress: Progress) -> Seq<Seq<Span>> {
    seq![
        seq![bold("PromptPilot ACE"@)],
        empty_line(),
        progress_spans(progress, AceProgressStep::GeneratingEnhancedPrompt),
        progress_spans(progress, AceProgressStep::ReviewingGuardrails),
    ]
}

/// The lines with the notes under their heading, where there are notes.
pub open spec fn ace_notes(notes: Seq<Seq<char>>, width: usize) -> Seq<Seq<Span>> {
    if notes.len() == 0 {
        Seq::empty()
    } else {
        seq![empty_line(), seq![cyan_heading("Context steps"@)]] + note_lines(notes, width)
    }
}

/// The line about the keys while a prompt is enhanced with project context.
pub open spec fn ace_keys() -> Seq<Span> {
    seq![
        plain("Scroll: "@),
        cyan("↑/↓"@),
        plain(" "@),
        cyan("wheel"@),
        plain(" "@),
        cyan("PgUp/PgDn"@),
        plain("   "@),
        cyan("Esc"@),
        plain(" cancel"@),
    ]
}

/// The lines with project context.
pub open spec fn ace_loading_lines(
    prompt: Seq<char>,
    progress: Progress,
    width: usize,
) -> Seq<Seq<Span>> {
    ace_head(progress) + ace_notes(progress.notes, width) + seq![
        empty_line(),
        seq![cyan_heading("Original prompt"@)],
    ] + quoted_lines(prompt, width) + seq![empty_line(), ace_keys()]
}

/// The width that lines are broken at.
pub open spec fn wrap_width(width: u16) -> usize {
    if width < 1 {
        1
    } else {
        width as usize
    }
}

fn wrap_columns(width: u16) -> (r: usize)
    ensures
        r == wrap_width(width),
{
    if width < 1 {
        1
    } else {
        width as usize
    }
}

/// The lines of the view in `width` columns.
pub open spec fn loading_lines(s: LoadingState, width: u16) -> Seq<Seq<Span>> {
    match s.progress {
        None => standard_loading_lines(s.original_prompt, wrap_width(width)),
        Some(progress) => ace_loading_lines(s.original_prompt, progress, wrap_width(width)),
    }
}

/// The view after a key.
pub open spec fn loading_key(s: LoadingState, code: KeyCode) -> LoadingState {
    if code == KeyCode::Esc {
        LoadingState { completion: Some(ViewCompletion::Cancelled), ..s }
    } else {
        match scrolled(code, s.scroll_top) {
            Some(top) => LoadingState { scroll_top: top, ..s },
            None => s,
        }
    }
}

impl PromptPilotLoadingView {
    /// The view without project context.
    pub fn new(original_prompt: String) -> (r: Self)
        ensures
            r@ == (LoadingState {
                original_prompt: original_prompt@,
                progress: None,
                completion: None,
                scroll_top: 0,
            }),
    {
        PromptPilotLoadingView {
            original_prompt,
            mode: PromptPilotLoadingMode::Standard,
            completion: None,
            scroll_top: 0,
        }
    }

    /// The view with project context.
    pub fn new_ace(original_prompt: String) -> (r: Self)
        ensures
            r@ == (LoadingState {
                original_prompt: original_prompt@,
                progress: Some(Progress::none()),
                completion: None,
                scroll_top: 0,
            }),
    {
        PromptPilotLoadingView {
            original_prompt,
            mode: PromptPilotLoadingMode::Ace(AceProgress::new()),
            completion: None,
            scroll_top: 0,
        }
    }

    /// Takes up a report; whether it changed what is shown.
    pub fn update_ace_progress(&mut self, progress: AceProgress) -> (changed: bool)
        ensures
            changed == (old(self)@.progress is Some && old(self)@.progress != Some(progress@)),
            final(self)@ == (if old(self)@.progress is Some {
                LoadingState { progress: Some(progress@), ..old(self)@ }
            } else {
                old(self)@
            }),
    {
        match &self.mode {
            PromptPilotLoadingMode::Standard => {
                return false;
            },
            PromptPilotLoadingMode::Ace(current) => {
                if current.same_as(&progress) {
                    return false;
                }
            },
        }
        self.mode = PromptPilotLoadingMode::Ace(progress);
        true
    }

    /// Takes up a report; whether it changed what is shown.
    pub fn update_prompt_pilot_ace_progress(&mut self, progress: AceProgress) -> (changed: bool)
        ensures
            changed == (old(self)@.progress is Some && old(self)@.progress != Some(progress@)),
            final(self)@ == (if old(self)@.progress is Some {
                LoadingState { progress: Some(progress@), ..old(self)@ }
            } else {
                old(self)@
            }),
    {
        self.update_ace_progress(progress)
    }

    /// The lines of the view in `width` columns.
    pub fn lines(&self, width: u16) -> (r: Vec<StyledLine>)
        ensures
            line_views(r@) == loading_lines(self@, width),
    {
        match &self.mode {
            PromptPilotLoadingMode::Standard => self.standard_lines(width),
            PromptPilotLoadingMode::Ace(progress) => self.ace_lines(width, progress),
        }
    }

    fn standard_lines(&self, width: u16) -> (lines: Vec<StyledLine>)
        ensures
            line_views(lines@) == standard_loading_lines(self@.original_prompt, wrap_width(width)),
    {
        let columns: usize = wrap_columns(width);
        let mut lines: Vec<StyledLine> = Vec::new();
        push_span(&mut lines, span("PromptPilot", Color::Plain, true, false));
        push_empty(&mut lines);
        push_span(&mut lines, span("Enhancing prompt with Codex", Color::Cyan, true, false));
        push_span(
            &mut lines,
            span("Waiting for the model to refine this draft.", Color::Plain, false, true),
        );
        push_empty(&mut lines);
        push_span(&mut lines, span("Original prompt", Color::Cyan, true, false));
        let ghost head = line_views(lines@);
        push_quoted(&mut lines, self.original_prompt.as_str(), columns);
        push_empty(&mut lines);
        let mut keys: Vec<StyledSpan> = Vec::new();
        keys.push(span("Esc", Color::Cyan, false, false));
        keys.push(span(" cancel", Color::Plain, false, false));
        proof {
            assert(Seq::new(keys@.len(), |i: int| keys@[i]@) =~= seq![
                cyan("Esc"@),
                plain(" cancel"@),
            ]);
        }
        push_line(&mut lines, keys);
        proof {
            assert(head =~= seq![
                seq![bold("PromptPilot"@)],
                empty_line(),
                seq![cyan_heading("Enhancing prompt with Codex"@)],
                seq![dim("Waiting for the model to refine this draft."@)],
                empty_line(),
                seq![cyan_heading("Original prompt"@)],
            ]);
            assert(line_views(lines@) =~= standard_loading_lines(self@.original_prompt, columns));
        }
        lines
    }

    fn ace_lines(&self, width: u16, progress: &AceProgress) -> (lines: Vec<StyledLine>)
        ensures
            line_views(lines@) == ace_loading_lines(
                self@.original_prompt,
                progress@,
                wrap_width(width),
            ),
    {
        let columns: usize = wrap_columns(width);
        let mut lines: Vec<StyledLine> = Vec::new();
        push_span(&mut lines, span("PromptPilot ACE", Color::Plain, true, false));
        push_empty(&mut lines);
        push_line(
            &mut lines,
            progress_line(progress, AceProgressStep::GeneratingEnhancedPrompt).spans,
        );
        push_line(&mut lines, progress_line(progress, AceProgressStep::ReviewingGuardrails).spans);
        proof {
            assert(line_views(lines@) =~= ace_head(progress@));
        }
        let notes = progress.notes();
        let ghost model = progress@.notes;
        proof {
            assert(texts(notes@).len() == notes@.len());
            assert(ace_head(progress@) + Seq::<Seq<Span>>::empty() =~= ace_head(progress@));
        }
        if !notes.is_empty() {
            push_empty(&mut lines);
            push_span(&mut lines, span("Context steps", Color::Cyan, true, false));
            let ghost head = line_views(lines@);
            let mut i: usize = 0;
            proof {
                assert(model.take(0) =~= Seq::<Seq<char>>::empty());
                assert(head + note_lines(model.take(0), columns) =~= head);
            }
            while i < notes.len()
                invariant
                    i <= notes@.len(),
                    texts(notes@) == model,
                    line_views(lines@) == head + note_lines(model.take(i as int), columns),
                decreases notes@.len() - i,
            {
                push_wrapped_bullet(&mut lines, notes[i].as_str(), columns);
                proof {
                    let next = model.take(i + 1);
                    assert(next.drop_last() =~= model.take(i as int));
                    assert(next.last() == notes@[i as int]@);
                    assert(head + note_lines(model.take(i as int), columns) + bullet_lines(
                        notes@[i as int]@,
                        columns,
                    ) =~= head + note_lines(next, columns));
                }
                i += 1;
            }
            proof {
                assert(model.take(notes@.len() as int) =~= model);
                assert(line_views(lines@) =~= ace_head(progress@) + ace_notes(model, columns));
            }
        }
        let ghost head = line_views(lines@);
        push_empty(&mut lines);
        push_span(&mut lines, span("Original prompt", Color::Cyan, true, false));
        push_quoted(&mut lines, self.original_prompt.as_str(), columns);
        push_empty(&mut lines);
        let mut keys: Vec<StyledSpan> = Vec::new();
        keys.push(span("Scroll: ", Color::Plain, false, false));
        keys.push(span("↑/↓", Color::Cyan, false, false));
        keys.push(span(" ", Color::Plain, false, false));
        keys.push(span("wheel", Color::Cyan, false, false));
        keys.push(span(" ", Color::Plain, false, false));
        keys.push(span("PgUp/PgDn", Color::Cyan, false, false));
        keys.push(span("   ", Color::Plain, false, false));
        keys.push(span("Esc", Color::Cyan, false, false));
        keys.push(span(" cancel", Color::Plain, false, false));
        proof {
            assert(Seq::new(keys@.len(), |i: int| keys@[i]@) =~= ace_keys());
        }
        push_line(&mut lines, keys);
        proof {
            assert(line_views(lines@) =~= ace_loading_lines(
                self@.original_prompt,
                progress@,
                columns,
            ));
        }
        lines
    }

    /// Reacts to a key.
    pub fn handle_key_event(&mut self, key_event: KeyEvent)
        ensures
            final(self)@ == loading_key(old(self)@, key_event.code),
    {
        if let KeyCode::Esc = key_event.code {
            self.on_ctrl_c();
        } else if let Some(top) = scroll(key_event.code, self.scroll_top) {
            self.scroll_top = top;
        }
    }

    /// Whether the view has ended.
    pub fn is_complete(&self) -> (r: bool)
        ensures
            r == (self@.completion is Some),
    {
        self.completion.is_some()
    }

    /// How the view ended.
    pub fn completion(&self) -> (r: Option<ViewCompletion>)
        ensures
            r == self@.completion,
    {
        self.completion
    }

    /// Cancels the enhancement.
    pub fn on_ctrl_c(&mut self) -> (r: CancellationEvent)
        ensures
            r == CancellationEvent::Handled,
            final(self)@ == (LoadingState {
                completion: Some(ViewCompletion::Cancelled),
                ..old(self)@
            }),
    {
        self.completion = Some(ViewCompletion::Cancelled);
        CancellationEvent::Handled
    }

    /// The name of the view.
    pub fn view_id(&self) -> (r: Option<&'static str>)
        ensures
            r is Some && r->Some_0@ == LOADING_VIEW_ID@,
    {
        Some(LOADING_VIEW_ID)
    }

    /// Reacts to the mouse; whether it did.
    pub fn handle_mouse_event(&mut self, kind: MouseEventKind) -> (handled: bool)
        ensures
            handled == (kind != MouseEventKind::Other),
            final(self)@ == (LoadingState {
                scroll_top: mouse_scrolled(kind, old(self)@.scroll_top),
                ..old(self)@
            }),
    {
        self.scroll_top = mouse_scroll(kind, self.scroll_top);
        match kind {
            MouseEventKind::Other => false,
            _ => true,
        }
    }

    /// Whether the view reacts to the mouse.
    pub fn wants_mouse_capture(&self) -> (r: bool)
        ensures
            r,
    {
        true
    }

    /// The rows that the view wants, given the columns inside its frame and the rows of the frame.
    pub fn desired_height(&self, inner_columns: u16, padding: u16) -> (r: u16)
        ensures
            r == height_for(
                loading_lines(self@, wrap_width(inner_columns) as u16).len(),
                padding,
            ),
    {
        let columns: u16 = if inner_columns < 1 {
            1
        } else {
            inner_columns
        };
        let lines = self.lines(columns);
        proof {
            assert(line_views(lines@).len() == lines@.len());
        }
        rows_for(lines.len(), padding)
    }

    /// The lines that are shown in `width` columns and `height` rows.
    pub fn visible_lines(&self, width: u16, height: u16) -> (r: Vec<StyledLine>)
        ensures
            line_views(r@) == visible(loading_lines(self@, width), self@.scroll_top, height),
    {
        take_visible(self.lines(width), self.scroll_top, height)
    }
}

// ---------------------------------------------------------------------------
// The preview
// ---------------------------------------------------------------------------

/// The view of an enhanced prompt before it is used.
pub struct PromptPilotPreviewView {
    preview: PromptPilotPreview,
    completion: Option<ViewCompletion>,
    composer_replacement: Option<String>,
    scroll_top: usize,
}

/// The model of a [`PromptPilotPreviewView`].
#[verifier::ext_equal]
pub struct PreviewState {
    pub preview: Preview,
    pub completion: Option<ViewCompletion>,
    /// What the draft in the composer is to be replaced by.
    pub composer_replacement: Option<Seq<char>>,
    pub scroll_top: usize,
}

impl View for PromptPilotPreviewView {
    type V = PreviewState;

    closed spec fn view(&self) -> PreviewState {
        PreviewState {
            preview: self.preview@,
            completion: self.completion,
            composer_replacement: match self.composer_replacement {
                Some(text) => Some(text@),
                None => None,
            },
            scroll_top: self.scroll_top,
        }
    }
}

/// The preview as it is first shown.
pub open spec fn fresh_preview(preview: Preview) -> PreviewState {
    PreviewState { preview, completion: None, composer_replacement: None, scroll_top: 0 }
}

/// The preview once it is applied: the draft is replaced by the enhanced prompt.
pub open spec fn applied(s: PreviewState) -> PreviewState {
    PreviewState {
        completion: Some(ViewCompletion::Accepted),
        composer_replacement: Some(s.preview.enhanced_prompt),
        ..s
    }
}

/// The preview once it is cancelled.
pub open spec fn cancelled(s: PreviewState) -> PreviewState {
    PreviewState { completion: Some(ViewCompletion::Cancelled), ..s }
}

/// Whether a key applies the preview.
pub open spec fn applies(key: KeyEvent) -> bool {
    ||| key.code == KeyCode::Enter
    ||| !key.control && !key.alt && (key.code == KeyCode::Char('a') || key.code == KeyCode::Char(
        'A',
    ))
}

/// Whether a key cancels the preview.
pub open spec fn cancels(key: KeyEvent) -> bool {
    ||| key.code == KeyCode::Esc
    ||| !key.control && !key.alt && (key.code == KeyCode::Char('c') || key.code == KeyCode::Char(
        'C',
    ) || key.code == KeyCode::Char('q') || key.code == KeyCode::Char('Q'))
}

/// The preview after a key.
pub open spec fn preview_key(s: PreviewState, key: KeyEvent) -> PreviewState {
    if applies(key) {
        applied(s)
    } else if cancels(key) {
        cancelled(s)
    } else {
        match scrolled(key.code, s.scroll_top) {
            Some(top) => PreviewState { scroll_top: top, ..s },
            None => s,
        }
    }
}

/// The preview after a series of keys.
pub open spec fn preview_keys(s: PreviewState, keys: Seq<KeyEvent>) -> PreviewState
    decreases keys.len(),
{
    if keys.len() == 0 {
        s
    } else {
        preview_key(preview_keys(s, keys.drop_last()), keys.last())
    }
}

/// Whatever keys are pressed, the preview itself stays the same, and the draft is replaced only by
/// the enhanced prompt, and only where one of the keys applied it. A preview that is cancelled
/// without having been applied leaves the draft alone.
pub proof fn law_preview_keys(preview: Preview, keys: Seq<KeyEvent>)
    ensures
        ({
            let s = preview_keys(fresh_preview(preview), keys);
            &&& s.preview == preview
            &&& s.composer_replacement is Some <==> exists|i: int|
                0 <= i < keys.len() && applies(#[trigger] keys[i])
            &&& s.composer_replacement matches Some(text) ==> text == preview.enhanced_prompt
            &&& s.completion == Some(ViewCompletion::Accepted) ==> s.composer_replacement == Some(
                preview.enhanced_prompt,
            )
        }),
    decreases keys.len(),
{
    if keys.len() > 0 {
        let init = keys.drop_last();
        law_preview_keys(preview, init);
        let t = preview_keys(fresh_preview(preview), init);
        if t.composer_replacement is Some {
            let i = choose|i: int| 0 <= i < init.len() && applies(#[trigger] init[i]);
            assert(applies(keys[i]));
        }
        if applies(keys.last()) {
            assert(applies(keys[keys.len() - 1]));
        }
        assert forall|i: int|
            0 <= i < keys.len() && applies(#[trigger] keys[i]) implies preview_keys(
            fresh_preview(preview),
            keys,
        ).composer_replacement is Some by {
            if i < init.len() {
                assert(applies(init[i]));
            }
        }
    }
}

/// The line about the keys of the preview.
pub open spec fn preview_key_line() -> Seq<Span> {
    seq![
        plain("Scroll: "@),
        cyan("↑/↓"@),
        plain(" "@),
        cyan("wheel"@),
        plain(" "@),
        cyan("PgUp/PgDn"@),
        plain("   "@),
        cyan("Enter/A"@),
        plain(" apply   "@),
        cyan("Esc"@),
        plain(" cancel"@),
    ]
}

/// The lines of the preview.
pub open spec fn preview_lines(preview: Preview, width: usize) -> Seq<Seq<Span>> {
    seq![
        seq![bold("PromptPilot"@)],
        empty_line(),
        seq![cyan_heading("Interpreted intent"@)],
    ] + wrapped_lines(preview.understanding, width, style(Color::Plain, false, true)) + seq![
        empty_line(),
        seq![cyan_heading("Original prompt"@)],
    ] + quoted_lines(preview.original_prompt, width) + seq![
        empty_line(),
        seq![green_heading("Enhanced prompt"@)],
    ] + wrapped_lines(preview.enhanced_prompt, width, style(Color::Plain, false, false)) + seq![
        empty_line(),
        preview_key_line(),
    ]
}

fn is_apply_key(key: KeyEvent) -> (r: bool)
    ensures
        r == applies(key),
{
    match key.code {
        KeyCode::Enter => true,
        KeyCode::Char(c) => !key.control && !key.alt && (c == 'a' || c == 'A'),
        _ => false,
    }
}

fn is_cancel_key(key: KeyEvent) -> (r: bool)
    ensures
        r == cancels(key),
{
    match key.code {
        KeyCode::Esc => true,
        KeyCode::Char(c) => !key.control && !key.alt && (c == 'c' || c == 'C' || c == 'q' || c
            == 'Q'),
        _ => false,
    }
}

impl PromptPilotPreviewView {
    /// The view of a preview.
    pub fn new(preview: PromptPilotPreview) -> (r: Self)
        ensures
            r@ == fresh_preview(preview@),
    {
        PromptPilotPreviewView {
            preview,
            completion: None,
            composer_replacement: None,
            scroll_top: 0,
        }
    }

    fn apply(&mut self)
        ensures
            final(self)@ == applied(old(self)@),
    {
        self.composer_replacement = Some(self.preview.enhanced_prompt.clone());
        self.completion = Some(ViewCompletion::Accepted);
    }

    /// The lines of the view in `width` columns.
    pub fn lines(&self, width: u16) -> (lines: Vec<StyledLine>)
        ensures
            line_views(lines@) == preview_lines(self@.preview, wrap_width(width)),
    {
        let columns: usize = wrap_columns(width);
        let mut lines: Vec<StyledLine> = Vec::new();
        push_span(&mut lines, span("PromptPilot", Color::Plain, true, false));
        push_empty(&mut lines);
        push_span(&mut lines, span("Interpreted intent", Color::Cyan, true, false));
        proof {
            assert(line_views(lines@) =~= seq![
                seq![bold("PromptPilot"@)],
                empty_line(),
                seq![cyan_heading("Interpreted intent"@)],
            ]);
        }
        push_wrapped(
            &mut lines,
            self.preview.understanding.as_str(),
            columns,
            TextStyle { color: Color::Plain, bold: false, dim: true },
        );
        let ghost first = line_views(lines@);
        push_empty(&mut lines);
        push_span(&mut lines, span("Original prompt", Color::Cyan, true, false));
        proof {
            assert(line_views(lines@) =~= first + seq![
                empty_line(),
                seq![cyan_heading("Original prompt"@)],
            ]);
        }
        push_quoted(&mut lines, self.preview.original_prompt.as_str(), columns);
        let ghost second = line_views(lines@);
        push_empty(&mut lines);
        push_span(&mut lines, span("Enhanced prompt", Color::Green, true, false));
        proof {
            assert(line_views(lines@) =~= second + seq![
                empty_line(),
                seq![green_heading("Enhanced prompt"@)],
            ]);
        }
        push_wrapped(
            &mut lines,
            self.preview.enhanced_prompt.as_str(),
            columns,
            TextStyle { color: Color::Plain, bold: false, dim: false },
        );
        let ghost third = line_views(lines@);
        push_empty(&mut lines);
        let mut keys: Vec<StyledSpan> = Vec::new();
        keys.push(span("Scroll: ", Color::Plain, false, false));
        keys.push(span("↑/↓", Color::Cyan, false, false));
        keys.push(span(" ", Color::Plain, false, false));
        keys.push(span("wheel", Color::Cyan, false, false));
        keys.push(span(" ", Color::Plain, false, false));
        keys.push(span("PgUp/PgDn", Color::Cyan, false, false));
        keys.push(span("   ", Color::Plain, false, false));
        keys.push(span("Enter/A", Color::Cyan, false, false));
        keys.push(span(" apply   ", Color::Plain, false, false));
        keys.push(span("Esc", Color::Cyan, false, false));
        keys.push(span(" cancel", Color::Plain, false, false));
        proof {
            assert(Seq::new(keys@.len(), |i: int| keys@[i]@) =~= preview_key_line());
        }
        push_line(&mut lines, keys);
        proof {
            assert(line_views(lines@) =~= third + seq![empty_line(), preview_key_line()]);
        }
        lines
    }

    /// Reacts to a key.
    pub fn handle_key_event(&mut self, key_event: KeyEvent)
        ensures
            final(self)@ == preview_key(old(self)@, key_event),
    {
        if is_apply_key(key_event) {
            self.apply();
        } else if is_cancel_key(key_event) {
            self.on_ctrl_c();
        } else if let Some(top) = scroll(key_event.code, self.scroll_top) {
            self.scroll_top = top;
        }
    }

    /// Whether the view has ended.
    pub fn is_complete(&self) -> (r: bool)
        ensures
            r == (self@.completion is Some),
    {
        self.completion.is_some()
    }

    /// How the view ended.
    pub fn completion(&self) -> (r: Option<ViewCompletion>)
        ensures
            r == self@.completion,
    {
        self.completion
    }

    /// What the draft is to be replaced by, once.
    pub fn take_composer_replacement(&mut self) -> (r: Option<String>)
        ensures
            r is Some <==> old(self)@.composer_replacement is Some,
            r matches Some(text) ==> old(self)@.composer_replacement == Some(text@),
            final(self)@ == (PreviewState { composer_replacement: None, ..old(self)@ }),
    {
        let mut out: Option<String> = None;
        std::mem::swap(&mut out, &mut self.composer_replacement);
        out
    }

    /// Cancels the preview.
    pub fn on_ctrl_c(&mut self) -> (r: CancellationEvent)
        ensures
            r == CancellationEvent::Handled,
            final(self)@ == cancelled(old(self)@),
    {
        self.completion = Some(ViewCompletion::Cancelled);
        CancellationEvent::Handled
    }

    /// The name of the view.
    pub fn view_id(&self) -> (r: Option<&'static str>)
        ensures
            r is Some && r->Some_0@ == PREVIEW_VIEW_ID@,
    {
        Some(PREVIEW_VIEW_ID)
    }

    /// Reacts to the mouse; whether it did.
    pub fn handle_mouse_event(&mut self, kind: MouseEventKind) -> (handled: bool)
        ensures
            handled == (kind != MouseEventKind::Other),
            final(self)@ == (PreviewState {
                scroll_top: mouse_scrolled(kind, old(self)@.scroll_top),
                ..old(self)@
            }),
    {
        self.scroll_top = mouse_scroll(kind, self.scroll_top);
        match kind {
            MouseEventKind::Other => false,
            _ => true,
        }
    }

    /// Whether the view reacts to the mouse.
    pub fn wants_mouse_capture(&self) -> (r: bool)
        ensures
            r,
    {
        true
    }

    /// The rows that the view wants, given the columns inside its frame and the rows of the frame.
    pub fn desired_height(&self, inner_columns: u16, padding: u16) -> (r: u16)
        ensures
            r == height_for(
                preview_lines(self@.preview, wrap_width(inner_columns)).len(),
                padding,
            ),
    {
        let lines = self.lines(inner_columns);
        proof {
            assert(line_views(lines@).len() == lines@.len());
        }
        rows_for(lines.len(), padding)
    }

    /// The lines that are shown in `width` columns and `height` rows.
    pub fn visible_lines(&self, width: u16, height: u16) -> (r: Vec<StyledLine>)
        ensures
            line_views(r@) == visible(
                preview_lines(self@.preview, wrap_width(width)),
                self@.scroll_top,
                height,
            ),
    {
        take_visible(self.lines(width), self.scroll_top, height)
    }
}

/// A view always wants between eight and twenty-eight rows.
pub proof fn law_height(line_count: nat, padding: u16)
    ensures
        MIN_HEIGHT <= height_for(line_count, padding) <= MAX_HEIGHT,
{
}

// ---------------------------------------------------------------------------
// Laws of what is shown
// ---------------------------------------------------------------------------

/// How keys and the wheel scroll: by one row, eight rows or three rows, never above the first row,
/// and the letters as the arrows. What is scrolled down comes back when it is scrolled up again.
pub proof fn law_scrolling(top: usize)
    ensures
        scrolled(KeyCode::Up, top) == Some(
            if top >= 1 {
                (top - 1) as usize
            } else {
                0
            },
        ),
        scrolled(KeyCode::PageUp, top) == Some(
            if top >= 8 {
                (top - 8) as usize
            } else {
                0
            },
        ),
        top < usize::MAX ==> scrolled(KeyCode::Down, top) == Some((top + 1) as usize),
        top <= usize::MAX - 8 ==> scrolled(KeyCode::PageDown, top) == Some((top + 8) as usize),
        scrolled(KeyCode::Char('k'), top) == scrolled(KeyCode::Up, top),
        scrolled(KeyCode::Char('j'), top) == scrolled(KeyCode::Down, top),
        scrolled(KeyCode::Home, top) == Some(0usize),
        scrolled(KeyCode::End, top) == Some(usize::MAX),
        scrolled(KeyCode::Enter, top) is None,
        scrolled(KeyCode::Other, top) is None,
        forall|c: char|
            c != 'k' && c != 'j' ==> #[trigger] scrolled(KeyCode::Char(c), top) is None,
        mouse_scrolled(MouseEventKind::ScrollUp, top) == (if top >= 3 {
            (top - 3) as usize
        } else {
            0
        }),
        top <= usize::MAX - 3 ==> mouse_scrolled(MouseEventKind::ScrollDown, top) == top + 3,
        mouse_scrolled(MouseEventKind::Other, top) == top,
        top < usize::MAX ==> scrolled(
            KeyCode::Up,
            scrolled(KeyCode::Down, top)->Some_0,
        ) == Some(top),
        top <= usize::MAX - 8 ==> scrolled(
            KeyCode::PageUp,
            scrolled(KeyCode::PageDown, top)->Some_0,
        ) == Some(top),
        top <= usize::MAX - 3 ==> mouse_scrolled(
            MouseEventKind::ScrollUp,
            mouse_scrolled(MouseEventKind::ScrollDown, top),
        ) == top,
{
}

/// The lines that are shown follow each other, from the row that the view is scrolled to, or from
/// the last one that leaves no row empty.
pub proof fn law_visible_lines(lines: Seq<Seq<Span>>, top: usize, height: u16, i: int)
    requires
        0 <= i < visible(lines, top, height).len(),
    ensures
        ({
            let first = if top + height <= lines.len() {
                top as int
            } else if lines.len() >= height {
                lines.len() - height
            } else {
                0
            };
            &&& first + i < lines.len()
            &&& visible(lines, top, height)[i] == lines[first + i]
        }),
{
}

/// The rows that a view wants: those of its lines and of its frame, but at least eight and at most
/// twenty-eight.
pub proof fn law_rows(line_count: nat, padding: u16)
    requires
        line_count < 0x1_0000,
    ensures
        8 <= line_count + padding <= 28 ==> height_for(line_count, padding) == line_count + padding,
        line_count + padding < 8 ==> height_for(line_count, padding) == 8,
        line_count + padding > 28 ==> height_for(line_count, padding) == 28,
{
}

/// The line about a step names it, in green with a tick where it is done, in bold cyan where it is
/// being done, and in grey otherwise.
pub proof fn law_progress_line(progress: Progress, step: AceProgressStep)
    ensures
        ({
            let line = progress_spans(progress, step);
            let done = progress.completed.contains(step);
            let current = progress.current == Some(step);
            &&& line.len() == 2
            &&& line[1].text == step.words()
            &&& done ==> line[0].text == "✓ "@ && line[1].style.color == Color::Green
                && !line[1].style.bold && !line[1].style.dim
            &&& !done && current ==> line[0].text == "… "@ && line[1].style.color == Color::Cyan
                && line[1].style.bold
            &&& !done && !current ==> line[0].text == "  "@ && line[1].style.color == Color::Plain
                && line[1].style.dim
        }),
{
}

/// The preview shows what is understood, the original prompt as a quotation and the enhanced prompt,
/// in this order and each as it is wrapped, under their headings.
pub proof fn law_preview_lines(preview: Preview, width: usize, i: int)
    ensures
        ({
            let lines = preview_lines(preview, width);
            let a = wrapped(preview.understanding, width);
            let b = wrapped(
                preview.original_prompt,
                if width > 2 {
                    (width - 2) as usize
                } else {
                    1
                },
            );
            let c = wrapped(preview.enhanced_prompt, width);
            let from_b = 3 + a.len() + 2;
            let from_c = from_b + b.len() + 2;
            &&& lines.len() == from_c + c.len() + 2
            &&& lines[0] == seq![bold("PromptPilot"@)]
            &&& lines[2] == seq![cyan_heading("Interpreted intent"@)]
            &&& lines[from_b - 1] == seq![cyan_heading("Original prompt"@)]
            &&& lines[from_c - 1] == seq![green_heading("Enhanced prompt"@)]
            &&& 0 <= i < a.len() ==> lines[3 + i].len() == 1 && lines[3 + i][0].text == a[i]
            &&& 0 <= i < b.len() ==> lines[from_b + i].len() == 1 && lines[from_b + i][0].text
                == "> "@ + b[i]
            &&& 0 <= i < c.len() ==> lines[from_c + i].len() == 1 && lines[from_c + i][0].text
                == c[i]
        }),
{
    let a = wrapped(preview.understanding, width);
    let c = wrapped(preview.enhanced_prompt, width);
    if 0 <= i < a.len() {
        assert(Seq::<char>::empty() + a[i] =~= a[i]);
    }
    if 0 <= i < c.len() {
        assert(Seq::<char>::empty() + c[i] =~= c[i]);
    }
}

/// While a prompt is enhanced it is shown as a quotation, as it is wrapped; with project context the
/// two steps stand above it.
pub proof fn law_loading_lines(s: LoadingState, width: u16, i: int)
    ensures
        ({
            let lines = loading_lines(s, width);
            let columns = if width < 1 {
                1
            } else {
                width as usize
            };
            let quoted = wrapped(
                s.original_prompt,
                if columns > 2 {
                    (columns - 2) as usize
                } else {
                    1
                },
            );
            let from = lines.len() - 2 - quoted.len();
            &&& from >= 6
            &&& lines[from - 1] == seq![cyan_heading("Original prompt"@)]
            &&& 0 <= i < quoted.len() ==> lines[from + i].len() == 1 && lines[from + i][0].text
                == "> "@ + quoted[i]
            &&& s.progress is None ==> lines[0] == seq![bold("PromptPilot"@)] && from == 6
            &&& s.progress matches Some(progress) ==> lines[0] == seq![bold("PromptPilot ACE"@)]
                && lines[2] == progress_spans(progress, AceProgressStep::GeneratingEnhancedPrompt)
                && lines[3] == progress_spans(progress, AceProgressStep::ReviewingGuardrails)
            &&& s.progress matches Some(progress) ==> (progress.notes.len() > 0 ==> lines[5]
                == seq![cyan_heading("Context steps"@)])
        }),
{
}

/// Each note is shown, as it is wrapped, after a bullet, in order.
pub proof fn law_note_lines(notes: Seq<Seq<char>>, note: Seq<char>, width: usize, i: int)
    ensures
        ({
            let before = note_lines(notes, width);
            let after = note_lines(notes.push(note), width);
            let parts = wrapped(
                note,
                if width > 2 {
                    (width - 2) as usize
                } else {
                    1
                },
            );
            &&& before.is_prefix_of(after)
            &&& after.len() == before.len() + parts.len()
            &&& 0 <= i < parts.len() ==> after[before.len() + i].len() == 1 && after[before.len()
                + i][0].text == (if i == 0 {
                "• "@
            } else {
                "  "@
            }) + parts[i]
        }),
{
    assert(notes.push(note).drop_last() =~= notes);
}

/// Scrolling down never goes up and stops at the last row that can be counted.
pub proof fn law_scrolling_saturates(top: usize)
    ensures
        scrolled(KeyCode::Down, top)->Some_0 >= top,
        scrolled(KeyCode::PageDown, top)->Some_0 >= top,
        mouse_scrolled(MouseEventKind::ScrollDown, top) >= top,
        scrolled(KeyCode::Down, usize::MAX) == Some(usize::MAX),
        top > usize::MAX - 8 ==> scrolled(KeyCode::PageDown, top) == Some(usize::MAX),
        top > usize::MAX - 3 ==> mouse_scrolled(MouseEventKind::ScrollDown, top) == usize::MAX,
{
}

/// A key of a view does one of three things: it ends the view, scrolls it, or nothing. The escape
/// key ends a view that waits as cancelled.
pub proof fn law_loading_keys(s: LoadingState, code: KeyCode)
    ensures
        ({
            let t = loading_key(s, code);
            &&& t.original_prompt == s.original_prompt && t.progress == s.progress
            &&& code == KeyCode::Esc ==> t.completion == Some(ViewCompletion::Cancelled)
                && t.scroll_top == s.scroll_top
            &&& code != KeyCode::Esc ==> t.completion == s.completion
            &&& code == KeyCode::Down && s.scroll_top < usize::MAX ==> t.scroll_top == s.scroll_top
                + 1
            &&& code == KeyCode::Up && s.scroll_top > 0 ==> t.scroll_top == s.scroll_top - 1
            &&& code == KeyCode::Home ==> t.scroll_top == 0
            &&& code == KeyCode::End ==> t.scroll_top == usize::MAX
            &&& code == KeyCode::Enter || code == KeyCode::Other ==> t == s
        }),
{
}

/// The keys of a preview: the return key and the letter A take the enhanced prompt over, the escape
/// key and the letters C and Q give it up, and every other key scrolls or does nothing.
pub proof fn law_preview_key(s: PreviewState, key: KeyEvent)
    ensures
        ({
            let t = preview_key(s, key);
            let letter = !key.control && !key.alt;
            let take = key.code == KeyCode::Enter || letter && (key.code == KeyCode::Char('a')
                || key.code == KeyCode::Char('A'));
            let leave = key.code == KeyCode::Esc || letter && (key.code == KeyCode::Char('c')
                || key.code == KeyCode::Char('C') || key.code == KeyCode::Char('q') || key.code
                == KeyCode::Char('Q'));
            &&& t.preview == s.preview
            &&& take ==> t.completion == Some(ViewCompletion::Accepted) && t.composer_replacement
                == Some(s.preview.enhanced_prompt) && t.scroll_top == s.scroll_top
            &&& leave ==> t.completion == Some(ViewCompletion::Cancelled)
                && t.composer_replacement == s.composer_replacement && t.scroll_top
                == s.scroll_top
            &&& !take && !leave ==> t.completion == s.completion && t.composer_replacement
                == s.composer_replacement && t.scroll_top == (match scrolled(
                key.code,
                s.scroll_top,
            ) {
                Some(top) => top,
                None => s.scroll_top,
            })
        }),
{
}

/// The last line of a view names its keys.
pub proof fn law_key_lines(s: LoadingState, preview: Preview, width: u16, columns: usize)
    ensures
        ({
            let last = preview_lines(preview, columns).last();
            &&& last.contains(cyan("Enter/A"@)) && last.contains(plain(" apply   "@))
            &&& last.contains(cyan("Esc"@)) && last.contains(plain(" cancel"@))
        }),
        ({
            let last = loading_lines(s, width).last();
            last.contains(cyan("Esc"@)) && last.contains(plain(" cancel"@))
        }),
        s.progress is Some ==> loading_lines(s, width).last().contains(cyan("PgUp/PgDn"@)),
        s.progress is None ==> loading_lines(s, width)[2] == seq![
            cyan_heading("Enhancing prompt with Codex"@),
        ] && loading_lines(s, width)[3] == seq![
            dim("Waiting for the model to refine this draft."@),
        ],
{
    let a = preview_lines(preview, columns).last();
    assert(a == preview_key_line());
    assert(a[7] == cyan("Enter/A"@) && a[8] == plain(" apply   "@) && a[9] == cyan("Esc"@) && a[10]
        == plain(" cancel"@));
    let b = loading_lines(s, width).last();
    if s.progress is Some {
        assert(b == ace_keys());
        assert(b[5] == cyan("PgUp/PgDn"@) && b[7] == cyan("Esc"@) && b[8] == plain(" cancel"@));
    } else {
        assert(b[0] == cyan("Esc"@) && b[1] == plain(" cancel"@));
    }
}

/// The notes on what was done stand between the steps and the prompt, all of them.
pub proof fn law_notes_are_shown(s: LoadingState, progress: Progress, width: u16, i: int)
    requires
        s.progress == Some(progress),
        progress.notes.len() > 0,
        width > 0,
        0 <= i < note_lines(progress.notes, width as usize).len(),
    ensures
        loading_lines(s, width)[6 + i] == note_lines(progress.notes, width as usize)[i],
{
}

/// What the spans of a view look like.
pub proof fn law_styles(text: Seq<char>)
    ensures
        plain(text).text == text && plain(text).style.color == Color::Plain
            && !plain(text).style.bold && !plain(text).style.dim,
        dim(text).text == text && dim(text).style.dim && !dim(text).style.bold,
        bold(text).text == text && bold(text).style.bold && !bold(text).style.dim,
        cyan(text).text == text && cyan(text).style.color == Color::Cyan && !cyan(text).style.bold,
        green(text).text == text && green(text).style.color == Color::Green
            && !green(text).style.bold,
        cyan_heading(text).text == text && cyan_heading(text).style.color == Color::Cyan
            && cyan_heading(text).style.bold,
        green_heading(text).text == text && green_heading(text).style.color == Color::Green
            && green_heading(text).style.bold,
{
}

} // verus!
