//! The short notes that tell what an enhancement with project context is doing.
use vstd::prelude::*;
use crate::progress::{AceProgress, AceProgressStep, Progress};
use crate::text::{
    ascii_lower, char_is_white_space, chars_of, contains, decimal, decimal_text, ends_with,
    filter_texts, finishes_with, first_of, first_texts, has_text, is_blank, join, joined,
    keep_non_empty, law_joined, lemma_filter_contains, lemma_filter_push, lemma_has_middle,
    lemma_has_text_within, lemma_take_push, lemma_texts_push, non_empty, replace_char, replaced,
    same_text, text_of, texts, to_ascii_lower, trim, trim_each, trimmed, trimmed_each, white_space,
};

verus! {

/// How many characters of a note are shown.
pub const MAX_PROGRESS_TEXT_CHARS: usize = 220;

// ---------------------------------------------------------------------------
// Cutting texts
// ---------------------------------------------------------------------------

/// The first `limit` characters of `text`, followed by `mark` where that is not all of it.
pub open spec fn cut_text(text: Seq<char>, limit: int, mark: Seq<char>) -> Seq<char> {
    if text.len() > limit {
        text.take(limit) + mark
    } else {
        text
    }
}

fn cut(text: &str, limit: usize, mark: &str) -> (r: String)
    ensures
        r@ == cut_text(text@, limit as int, mark@),
{
    let chars = chars_of(text);
    if chars.len() > limit {
        let mut out = text_of(&chars, 0, limit);
        out.append(mark);
        proof {
            assert(text@.subrange(0, limit as int) =~= text@.take(limit as int));
        }
        out
    } else {
        text.to_owned()
    }
}

/// A text as it is shown in a note.
pub open spec fn progress_text(text: Seq<char>) -> Seq<char> {
    cut_text(text, MAX_PROGRESS_TEXT_CHARS as int, "..."@)
}

/// A text as it is shown in a note: its first 220 characters, with dots where there are more.
pub fn trim_progress_text(text: &str) -> (r: String)
    ensures
        r@ == progress_text(text@),
{
    cut(text, MAX_PROGRESS_TEXT_CHARS, "...")
}

/// The first `max_chars` characters of a conversation, with a remark where there are more.
pub fn truncate_chars(text: &str, max_chars: usize) -> (r: String)
    ensures
        r@ == cut_text(text@, max_chars as int, "\n[conversation truncated]"@),
{
    cut(text, max_chars, "\n[conversation truncated]")
}

/// A reason as it is reported; one that is missing is called so.
pub open spec fn reason_text(reason: Seq<char>) -> Seq<char> {
    if trimmed(reason).len() == 0 {
        "no reason provided"@
    } else {
        progress_text(trimmed(reason))
    }
}

/// A reason as it is reported; one that is missing is called so.
pub fn fallback_reason(reason: &str) -> (r: String)
    ensures
        r@ == reason_text(reason@),
{
    let reason = trim(reason);
    if reason.is_empty() {
        "no reason provided".to_owned()
    } else {
        trim_progress_text(reason)
    }
}

/// The first `limit` texts that are not blank, without white space around them.
pub open spec fn limited_texts(values: Seq<Seq<char>>, limit: int) -> Seq<Seq<char>> {
    first_of(trimmed_each(values, white_space()).filter(non_empty()), limit)
}

/// The first `limit` texts that are not blank, without white space around them.
pub fn non_empty_limited(values: &Vec<String>, limit: usize) -> (out: Vec<String>)
    ensures
        texts(out@) == limited_texts(texts(values@), limit as int),
{
    let all = trim_each(values, char_is_white_space, Ghost(white_space()));
    first_texts(&keep_non_empty(&all), limit)
}

// ---------------------------------------------------------------------------
// The transcript
// ---------------------------------------------------------------------------

/// The transcript with one more note; a note that repeats the last one is left out.
pub open spec fn with_note(transcript: Seq<Seq<char>>, note: Seq<char>) -> Seq<Seq<char>> {
    if transcript.len() > 0 && transcript.last() == progress_text(note) {
        transcript
    } else {
        transcript.push(progress_text(note))
    }
}

/// Adds a note to the transcript; a note that repeats the last one is left out.
pub fn push_ace_loop_note(transcript: &mut Vec<String>, note: &str)
    ensures
        texts(final(transcript)@) == with_note(texts(old(transcript)@), note@),
{
    broadcast use lemma_texts_push;

    let note = trim_progress_text(note);
    let n: usize = transcript.len();
    proof {
        assert(texts(transcript@).len() == n);
    }
    if n > 0 && same_text(transcript[n - 1].as_str(), note.as_str()) {
        return ;
    }
    transcript.push(note);
}

/// No two notes next to each other are the same.
pub open spec fn no_echo(transcript: Seq<Seq<char>>) -> bool {
    forall|i: int|
        0 < i < transcript.len() ==> #[trigger] transcript[i] != transcript[i - 1]
}

/// A transcript never says the same twice in a row, only grows, and shows of each note at most
/// 220 characters and the dots.
pub proof fn law_transcript(transcript: Seq<Seq<char>>, note: Seq<char>)
    requires
        no_echo(transcript),
    ensures
        no_echo(with_note(transcript, note)),
        transcript.is_prefix_of(with_note(transcript, note)),
        with_note(transcript, note).last() == progress_text(note),
        progress_text(note).len() <= MAX_PROGRESS_TEXT_CHARS + 3,
{
    reveal_strlit("...");
}

/// The report on a step with the notes of the transcript, and one note more where there is one.
pub open spec fn loop_progress(
    step: AceProgressStep,
    transcript: Seq<Seq<char>>,
    active_note: Option<Seq<char>>,
) -> Progress {
    let progress = Progress::at(step).noted_all(transcript);
    match active_note {
        Some(note) => progress.noted(note),
        None => progress,
    }
}

/// The report on a step with the notes of the transcript, and one note more where there is one.
pub fn ace_loop_progress(
    step: AceProgressStep,
    transcript: &Vec<String>,
    active_note: Option<&str>,
) -> (r: AceProgress)
    ensures
        r@ == loop_progress(
            step,
            texts(transcript@),
            match active_note {
                Some(note) => Some(note@),
                None => None,
            },
        ),
{
    let mut progress = AceProgress::running(step);
    let mut i: usize = 0;
    proof {
        assert(texts(transcript@).take(0) =~= Seq::<Seq<char>>::empty());
    }
    while i < transcript.len()
        invariant
            i <= transcript@.len(),
            progress@ == Progress::at(step).noted_all(texts(transcript@).take(i as int)),
        decreases transcript@.len() - i,
    {
        proof {
            let before = texts(transcript@).take(i as int);
            lemma_take_push(texts(transcript@), i as int);
            assert(before.push(transcript@[i as int]@).drop_last() =~= before);
        }
        progress.add_note(transcript[i].clone());
        i += 1;
    }
    proof {
        assert(texts(transcript@).take(transcript@.len() as int) =~= texts(transcript@));
    }
    if let Some(note) = active_note {
        progress.add_note(note.to_owned());
    }
    progress
}

// ---------------------------------------------------------------------------
// What a step found
// ---------------------------------------------------------------------------

/// What the choice of an action says of the context.
pub open spec fn assessment_of(action: Seq<char>) -> Seq<char> {
    if action == "search_files"@ {
        "Assessed context: more file context is needed"@
    } else if action == "read_small_snippets"@ {
        "Assessed context: likely files should be inspected"@
    } else if action == "finish"@ {
        "Assessed context: enough context to draft"@
    } else {
        "Assessed collected context"@
    }
}

/// What the choice of an action says of the context.
pub fn assessment_note_for_action(action: &str) -> (r: &'static str)
    ensures
        r@ == assessment_of(action@),
{
    if same_text(action, "search_files") {
        "Assessed context: more file context is needed"
    } else if same_text(action, "read_small_snippets") {
        "Assessed context: likely files should be inspected"
    } else if same_text(action, "finish") {
        "Assessed context: enough context to draft"
    } else {
        "Assessed collected context"
    }
}

/// Whether a path is one of a snapshot, a fixture or a schema.
pub open spec fn is_low_signal(path: Seq<char>) -> bool {
    let path = ascii_lower(replaced(path, '\\', '/'));
    ||| has_text(path, "/snapshots/"@)
    ||| has_text(path, "/fixtures/"@)
    ||| has_text(path, "/testdata/"@)
    ||| has_text(path, "/schema/"@)
    ||| finishes_with(path, ".snap"@)
    ||| finishes_with(path, ".snap.new"@)
}

/// The class of paths that are worth showing.
pub open spec fn high_signal() -> spec_fn(Seq<char>) -> bool {
    |path: Seq<char>| !is_low_signal(path)
}

/// Whether a path is one of a snapshot, a fixture or a schema.
pub fn is_low_signal_display_path(path: &str) -> (r: bool)
    ensures
        r == is_low_signal(path@),
{
    let path = to_ascii_lower(replace_char(path, '\\', '/').as_str());
    contains(path.as_str(), "/snapshots/") || contains(path.as_str(), "/fixtures/") || contains(
        path.as_str(),
        "/testdata/",
    ) || contains(path.as_str(), "/schema/") || ends_with(path.as_str(), ".snap") || ends_with(
        path.as_str(),
        ".snap.new",
    )
}

fn is_high_signal_path(path: &str) -> (r: bool)
    ensures
        r == high_signal()(path@),
{
    !is_low_signal_display_path(path)
}

/// The first `limit` paths that are worth showing.
pub fn high_signal_paths(paths: &Vec<String>, limit: usize) -> (out: Vec<String>)
    ensures
        texts(out@) == first_of(texts(paths@).filter(high_signal()), limit as int),
{
    first_texts(&filter_texts(paths, is_high_signal_path, Ghost(high_signal())), limit)
}

/// The first `limit` paths.
pub fn display_paths(paths: &Vec<String>, limit: usize) -> (out: Vec<String>)
    ensures
        texts(out@) == first_of(texts(paths@), limit as int),
{
    first_texts(paths, limit)
}

/// A list of paths after a heading, with the number of those that are not shown.
pub open spec fn shown_paths(
    heading: Seq<char>,
    shown: Seq<Seq<char>>,
    total: nat,
) -> Seq<char> {
    if shown.len() >= total {
        heading + joined(shown, ", "@)
    } else {
        heading + joined(shown, ", "@) + " (+"@ + decimal_text((total - shown.len()) as nat)
            + " more)"@
    }
}

fn show_paths(heading: &str, shown: &Vec<String>, total: usize) -> (r: String)
    ensures
        r@ == shown_paths(heading@, texts(shown@), total as nat),
{
    proof {
        assert(texts(shown@).len() == shown@.len());
    }
    let mut out = heading.to_owned();
    out.append(join(shown, ", ").as_str());
    if shown.len() < total {
        out.append(" (+");
        out.append(decimal(total - shown.len()).as_str());
        out.append(" more)");
    }
    out
}

/// What a file search found.
pub open spec fn search_note(paths: Seq<Seq<char>>) -> Seq<char> {
    let shown = first_of(paths.filter(high_signal()), 3);
    if paths.len() == 0 {
        "No matching files found yet"@
    } else if shown.len() == 0 {
        "Found "@ + decimal_text(paths.len())
            + " candidate file(s); still looking for higher-signal source files"@
    } else {
        shown_paths("Found likely files: "@, shown, paths.len())
    }
}

/// What a file search found.
pub fn search_result_note(paths: &Vec<String>) -> (r: String)
    ensures
        r@ == search_note(texts(paths@)),
{
    proof {
        assert(texts(paths@).len() == paths@.len());
    }
    if paths.is_empty() {
        return "No matching files found yet".to_owned();
    }
    let shown = high_signal_paths(paths, 3);
    proof {
        assert(texts(shown@).len() == shown@.len());
    }
    if shown.is_empty() {
        let mut out = "Found ".to_owned();
        out.append(decimal(paths.len()).as_str());
        out.append(" candidate file(s); still looking for higher-signal source files");
        return out;
    }
    show_paths("Found likely files: ", &shown, paths.len())
}

/// What was read.
pub open spec fn snippet_note(paths: Seq<Seq<char>>) -> Seq<char> {
    if paths.len() == 0 {
        "No snippets were read from the requested files"@
    } else {
        shown_paths("Read snippets from: "@, first_of(paths, 3), paths.len())
    }
}

/// What was read.
pub fn snippet_result_note(paths: &Vec<String>) -> (r: String)
    ensures
        r@ == snippet_note(texts(paths@)),
{
    proof {
        assert(texts(paths@).len() == paths@.len());
    }
    if paths.is_empty() {
        return "No snippets were read from the requested files".to_owned();
    }
    let shown = display_paths(paths, 3);
    show_paths("Read snippets from: ", &shown, paths.len())
}

// ---------------------------------------------------------------------------
// Laws of notes
// ---------------------------------------------------------------------------

/// A text within the limit is shown as it is; of a longer one the beginning, and the mark after it.
pub proof fn law_cut_text(text: Seq<char>, limit: int, mark: Seq<char>)
    requires
        0 <= limit,
    ensures
        text.len() <= limit ==> cut_text(text, limit, mark) == text,
        text.len() > limit ==> cut_text(text, limit, mark).len() == limit + mark.len() && forall|
            i: int,
        |
            0 <= i < limit ==> #[trigger] cut_text(text, limit, mark)[i] == text[i],
        text.len() > limit ==> cut_text(text, limit, mark).skip(limit) == mark,
        text.len() <= 220 ==> progress_text(text) == text,
        text.len() > 220 ==> progress_text(text) == text.take(220) + "..."@,
{
    if text.len() > limit {
        assert(cut_text(text, limit, mark).skip(limit) =~= mark);
    }
}

/// A reason is reported without white space around it, up to the limit, and a blank one is said to
/// be missing.
pub proof fn law_reason(reason: Seq<char>)
    ensures
        is_blank(reason) ==> reason_text(reason) == "no reason provided"@,
        !is_blank(reason) && trimmed(reason).len() <= 220 ==> reason_text(reason) == trimmed(
            reason,
        ),
        !is_blank(reason) && trimmed(reason).len() > 220 ==> reason_text(reason) == trimmed(
            reason,
        ).take(220) + "..."@,
{
}

/// Each text that is not blank is used, without white space around it, unless as many others are as
/// may be; no other text is, and no more than may be.
pub proof fn law_limited_texts(values: Seq<Seq<char>>, limit: int, i: int)
    requires
        0 <= limit,
        0 <= i < values.len(),
    ensures
        limited_texts(values, limit).len() <= limit,
        !is_blank(values[i]) ==> limited_texts(values, limit).contains(trimmed(values[i]))
            || limited_texts(values, limit).len() == limit,
        forall|k: int|
            0 <= k < limited_texts(values, limit).len() ==> (#[trigger] limited_texts(
                values,
                limit,
            )[k]).len() > 0 && exists|j: int|
                0 <= j < values.len() && limited_texts(values, limit)[k] == trimmed(
                    #[trigger] values[j],
                ),
        (forall|j: int| 0 <= j < values.len() ==> !is_blank(#[trigger] values[j])) && values.len()
            <= limit ==> limited_texts(values, limit) == trimmed_each(values, white_space()),
{
    let all = trimmed_each(values, white_space());
    let kept = all.filter(non_empty());
    let out = limited_texts(values, limit);
    let text = trimmed(values[i]);
    assert(all[i] == text);
    assert(all.contains(text));
    lemma_filter_contains(all, non_empty(), text);
    if kept.contains(text) {
        let k = choose|k: int| 0 <= k < kept.len() && kept[k] == text;
        if k < out.len() {
            assert(out[k] == text);
        }
    }
    assert forall|k: int| 0 <= k < out.len() implies (#[trigger] out[k]).len() > 0 && exists|j: int|
        0 <= j < values.len() && out[k] == trimmed(#[trigger] values[j]) by {
        assert(kept[k] == out[k]);
        assert(kept.contains(out[k]));
        lemma_filter_contains(all, non_empty(), out[k]);
        let j = choose|j: int| 0 <= j < all.len() && all[j] == out[k];
        assert(out[k] == trimmed(values[j]));
    }
    if forall|j: int| 0 <= j < values.len() ==> !is_blank(#[trigger] values[j]) {
        assert forall|j: int| 0 <= j < all.len() implies non_empty()(#[trigger] all[j]) by {
            assert(!is_blank(values[j]));
        }
        lemma_filter_all(all, non_empty());
    }
}

proof fn lemma_filter_all(s: Seq<Seq<char>>, p: spec_fn(Seq<char>) -> bool)
    requires
        forall|j: int| 0 <= j < s.len() ==> p(#[trigger] s[j]),
    ensures
        s.filter(p) == s,
    decreases s.len(),
{
    reveal(Seq::filter);
    if s.len() > 0 {
        let init = s.drop_last();
        assert forall|j: int| 0 <= j < init.len() implies p(#[trigger] init[j]) by {
            assert(init[j] == s[j]);
        }
        lemma_filter_all(init, p);
        assert(p(s[s.len() - 1]));
        assert(init.push(s.last()) =~= s);
    }
}

/// The class of notes that are not blank.
pub open spec fn not_blank() -> spec_fn(Seq<char>) -> bool {
    |note: Seq<char>| !is_blank(note)
}

proof fn lemma_noted_all(progress: Progress, notes: Seq<Seq<char>>)
    ensures
        progress.noted_all(notes).completed == progress.completed,
        progress.noted_all(notes).current == progress.current,
        progress.noted_all(notes).notes == progress.notes + notes.filter(not_blank()),
    decreases notes.len(),
{
    reveal(Seq::filter);
    if notes.len() == 0 {
        assert(progress.notes + notes.filter(not_blank()) =~= progress.notes);
    } else {
        let init = notes.drop_last();
        lemma_noted_all(progress, init);
        assert(notes =~= init.push(notes.last()));
        lemma_filter_push(init, notes.last(), not_blank());
        let before = init.filter(not_blank());
        assert((progress.notes + before).push(notes.last()) =~= progress.notes + before.push(
            notes.last(),
        ));
    }
}

/// A report tells every note of the transcript that is not blank, in order, and after them the one
/// about what is being done. The step is the current one, and exactly the steps before it are done.
pub proof fn law_loop_progress(
    step: AceProgressStep,
    transcript: Seq<Seq<char>>,
    note: Option<Seq<char>>,
)
    ensures
        ({
            let p = loop_progress(step, transcript, note);
            let told = transcript.filter(not_blank());
            &&& p.current == Some(step)
            &&& p.completed.contains(AceProgressStep::GeneratingEnhancedPrompt) <==> step
                == AceProgressStep::ReviewingGuardrails
            &&& !p.completed.contains(AceProgressStep::ReviewingGuardrails)
            &&& p.notes == (match note {
                Some(text) => if is_blank(text) {
                    told
                } else {
                    told.push(text)
                },
                None => told,
            })
        }),
{
    lemma_noted_all(Progress::at(step), transcript);
    assert(Seq::<Seq<char>>::empty() + transcript.filter(not_blank()) =~= transcript.filter(
        not_blank(),
    ));
    let done = Progress::at(step).completed;
    if step == AceProgressStep::ReviewingGuardrails {
        assert(done[0] == AceProgressStep::GeneratingEnhancedPrompt);
    }
}

/// What is said of a choice tells the choices apart.
pub proof fn law_assessment(action: Seq<char>)
    ensures
        action == "search_files"@ ==> assessment_of(action)
            == "Assessed context: more file context is needed"@,
        action == "read_small_snippets"@ ==> assessment_of(action)
            == "Assessed context: likely files should be inspected"@,
        action == "finish"@ ==> assessment_of(action)
            == "Assessed context: enough context to draft"@,
        action != "search_files"@ && action != "read_small_snippets"@ && action != "finish"@
            ==> assessment_of(action) == "Assessed collected context"@,
{
    reveal_strlit("search_files");
    reveal_strlit("read_small_snippets");
    reveal_strlit("finish");
    assert("search_files"@.len() == 12 && "read_small_snippets"@.len() == 19 && "finish"@.len()
        == 6);
}

/// Whether a path is worth showing depends neither on the case of its letters nor on which slashes
/// it is written with. It is not where it goes through a directory of snapshots, fixtures, test data
/// or schemas, or is a snapshot, and otherwise it is.
pub proof fn law_low_signal(p: Seq<char>, q: Seq<char>)
    requires
        ascii_lower(replaced(p, '\\', '/')) == ascii_lower(replaced(q, '\\', '/')),
    ensures
        is_low_signal(p) == is_low_signal(q),
        ({
            let path = ascii_lower(replaced(p, '\\', '/'));
            is_low_signal(p) <==> has_text(path, "/snapshots/"@) || has_text(path, "/fixtures/"@)
                || has_text(path, "/testdata/"@) || has_text(path, "/schema/"@) || finishes_with(
                path,
                ".snap"@,
            ) || finishes_with(path, ".snap.new"@)
        }),
{
}

/// The note about a search: without a file it says so. Otherwise it names the first three of the
/// files that are worth showing, and the number of the others; where none is worth showing it says
/// how many files there are.
pub proof fn law_search_note(paths: Seq<Seq<char>>)
    ensures
        ({
            let worth = paths.filter(high_signal());
            let shown = if worth.len() <= 3 {
                worth
            } else {
                worth.take(3)
            };
            let note = search_note(paths);
            &&& paths.len() == 0 ==> note == "No matching files found yet"@
            &&& paths.len() > 0 && worth.len() == 0 ==> note == "Found "@ + decimal_text(
                paths.len(),
            ) + " candidate file(s); still looking for higher-signal source files"@
            &&& worth.len() > 0 && shown.len() == paths.len() ==> note == "Found likely files: "@
                + joined(shown, ", "@)
            &&& worth.len() > 0 && shown.len() < paths.len() ==> note == "Found likely files: "@
                + joined(shown, ", "@) + " (+"@ + decimal_text((paths.len() - shown.len()) as nat)
                + " more)"@
            &&& forall|i: int| 0 <= i < shown.len() ==> has_text(note, #[trigger] shown[i])
            &&& forall|i: int|
                0 <= i < worth.len() ==> !is_low_signal(#[trigger] worth[i]) && paths.contains(
                    worth[i],
                )
        }),
{
    let worth = paths.filter(high_signal());
    let shown = if worth.len() <= 3 {
        worth
    } else {
        worth.take(3)
    };
    lemma_filter_contains(paths, high_signal(), Seq::empty());
    lemma_shown(shown, "Found likely files: "@, paths.len());
    assert forall|i: int| 0 <= i < worth.len() implies !is_low_signal(#[trigger] worth[i])
        && paths.contains(worth[i]) by {
        assert(worth.contains(worth[i]));
        lemma_filter_contains(paths, high_signal(), worth[i]);
    }
}

proof fn lemma_shown(shown: Seq<Seq<char>>, heading: Seq<char>, total: nat)
    ensures
        forall|i: int|
            0 <= i < shown.len() ==> has_text(
                shown_paths(heading, shown, total),
                #[trigger] shown[i],
            ),
{
    let list = joined(shown, ", "@);
    let note = shown_paths(heading, shown, total);
    law_joined(shown, ", "@, Seq::empty());
    let rest = note.skip((heading + list).len() as int);
    assert(heading + list + rest =~= note);
    lemma_has_middle(heading, list, rest);
    assert forall|i: int| 0 <= i < shown.len() implies has_text(note, #[trigger] shown[i]) by {
        lemma_has_text_within(note, list, shown[i]);
    }
}

/// The note about reading: without a file it says so, and otherwise it names the first three files
/// and the number of the others.
pub proof fn law_snippet_note(paths: Seq<Seq<char>>)
    ensures
        ({
            let shown = if paths.len() <= 3 {
                paths
            } else {
                paths.take(3)
            };
            let note = snippet_note(paths);
            &&& paths.len() == 0 ==> note == "No snippets were read from the requested files"@
            &&& 0 < paths.len() <= 3 ==> note == "Read snippets from: "@ + joined(paths, ", "@)
            &&& paths.len() > 3 ==> note == "Read snippets from: "@ + joined(shown, ", "@) + " (+"@
                + decimal_text((paths.len() - 3) as nat) + " more)"@
            &&& forall|i: int| 0 <= i < shown.len() ==> has_text(note, #[trigger] shown[i])
        }),
{
    let shown = if paths.len() <= 3 {
        paths
    } else {
        paths.take(3)
    };
    lemma_shown(shown, "Read snippets from: "@, paths.len());
}

} // verus!
