//! An enhanced prompt as it is shown before it is used, and the enhancement by fixed rules.
use vstd::prelude::*;
use crate::text::{
    ascii_lower, begins_with, contains, ends_with, finishes_with, has_text, is_blank,
    is_white_space, law_ascii_lower, law_blank, lemma_has_middle, lemma_lower_char,
    lemma_trimmed_where, law_trimmed_keeps, same_text, to_ascii_lower, trim, trimmed, white_space,
};

verus! {

/// An enhanced prompt beside the prompt that it was made from.
#[derive(Clone, Debug, PartialEq, Eq)]
pub struct PromptPilotPreview {
    pub original_prompt: String,
    pub understanding: String,
    pub enhanced_prompt: String,
}

/// The model of a [`PromptPilotPreview`].
#[verifier::ext_equal]
pub struct Preview {
    pub original_prompt: Seq<char>,
    pub understanding: Seq<char>,
    pub enhanced_prompt: Seq<char>,
}

impl View for PromptPilotPreview {
    type V = Preview;

    open spec fn view(&self) -> Preview {
        Preview {
            original_prompt: self.original_prompt@,
            understanding: self.understanding@,
            enhanced_prompt: self.enhanced_prompt@,
        }
    }
}

impl PromptPilotPreview {
    /// A preview of these texts.
    pub fn new(original_prompt: String, understanding: String, enhanced_prompt: String) -> (r: Self)
        ensures
            r@ == (Preview {
                original_prompt: original_prompt@,
                understanding: understanding@,
                enhanced_prompt: enhanced_prompt@,
            }),
    {
        PromptPilotPreview { original_prompt, understanding, enhanced_prompt }
    }
}

// ---------------------------------------------------------------------------
// Enhancement by fixed rules
// ---------------------------------------------------------------------------

/// What a prompt asks for.
#[derive(Clone, Copy, Debug, PartialEq, Eq, Structural)]
pub enum PromptIntent {
    KeepOriginal,
    SummarizeRecentCommits,
    CodingTask,
}

/// Whether a prompt is to be answered as it is: it is blank, a greeting, thanks, or a question.
pub open spec fn is_clear_or_conversational(prompt: Seq<char>, normalized: Seq<char>) -> bool {
    ||| trimmed(prompt).len() == 0
    ||| normalized == "hello"@
    ||| normalized == "hi"@
    ||| normalized == "hey"@
    ||| normalized == "thanks"@
    ||| normalized == "thank you"@
    ||| normalized == "你好"@
    ||| normalized == "谢谢"@
    ||| finishes_with(trimmed(prompt), "?"@)
}

/// Whether a prompt speaks of commits.
pub open spec fn mentions_commit(prompt: Seq<char>) -> bool {
    has_text(ascii_lower(prompt), "commit"@) || has_text(prompt, "提交"@)
}

/// Whether a prompt asks for a summary, or for what is recent.
pub open spec fn asks_for_summary(prompt: Seq<char>) -> bool {
    ||| has_text(ascii_lower(prompt), "summarize"@)
    ||| has_text(ascii_lower(prompt), "summary"@)
    ||| has_text(ascii_lower(prompt), "recent"@)
    ||| has_text(prompt, "总结"@)
    ||| has_text(prompt, "最近"@)
}

/// What a prompt asks for.
pub open spec fn intent_of(prompt: Seq<char>) -> PromptIntent {
    if is_clear_or_conversational(prompt, ascii_lower(prompt)) {
        PromptIntent::KeepOriginal
    } else if mentions_commit(prompt) && asks_for_summary(prompt) {
        PromptIntent::SummarizeRecentCommits
    } else {
        PromptIntent::CodingTask
    }
}

/// Whether a prompt is to be answered as it is.
pub fn is_prompt_clear_or_conversational(prompt: &str, normalized: &str) -> (r: bool)
    ensures
        r == is_clear_or_conversational(prompt@, normalized@),
{
    let inner = trim(prompt);
    if inner.is_empty() {
        return true;
    }
    same_text(normalized, "hello") || same_text(normalized, "hi") || same_text(normalized, "hey")
        || same_text(normalized, "thanks") || same_text(normalized, "thank you") || same_text(
        normalized,
        "你好",
    ) || same_text(normalized, "谢谢") || ends_with(inner, "?")
}

/// What a prompt asks for.
pub fn detect_intent(prompt: &str) -> (r: PromptIntent)
    ensures
        r == intent_of(prompt@),
{
    let normalized = to_ascii_lower(prompt);
    if is_prompt_clear_or_conversational(prompt, normalized.as_str()) {
        return PromptIntent::KeepOriginal;
    }
    let commit = contains(normalized.as_str(), "commit") || contains(prompt, "提交");
    let summary = contains(normalized.as_str(), "summarize") || contains(
        normalized.as_str(),
        "summary",
    ) || contains(normalized.as_str(), "recent") || contains(prompt, "总结") || contains(
        prompt,
        "最近",
    );
    if commit && summary {
        PromptIntent::SummarizeRecentCommits
    } else {
        PromptIntent::CodingTask
    }
}

/// What precedes a prompt that is answered as it is.
pub const KEEP_ORIGINAL_UNDERSTANDING: &'static str = "Codex should respond directly to the user's prompt without expanding it into a coding task: \"";

/// What is understood of a prompt about commits.
pub const RECENT_COMMITS_UNDERSTANDING: &'static str = "Codex should review the repository's recent Git history and produce a concise summary of the main changes, notable files, and any follow-up risks or questions.";

/// What follows a prompt about commits.
pub const RECENT_COMMITS_GUIDANCE: &'static str = "\n\nPlease summarize the recent Git history for this repository:\n\n1. Inspect recent commits with `git log` and, when useful, `git show` or `git diff`.\n2. Group the changes by theme or component instead of listing every commit mechanically.\n3. Call out notable behavior changes, touched files, and any risks or follow-up questions.\n4. Keep the summary concise and include the commit range or count you reviewed.";

/// What precedes a prompt for a coding task.
pub const CODING_TASK_UNDERSTANDING: &'static str = "Codex should treat this as a focused coding task based on the user's draft: \"";

/// What is understood of a coding task.
pub const CODING_TASK_UNDERSTANDING_END: &'static str = "\". The agent should inspect the relevant code first, keep the change scoped, and verify the result with the most relevant local checks.";

/// What follows a prompt for a coding task.
pub const CODING_TASK_GUIDANCE: &'static str = "\n\nPlease work through this as a focused coding-agent task:\n\n1. Inspect the relevant code path and summarize the current behavior before editing.\n2. Identify the smallest scoped change that satisfies the task.\n3. Implement the change using existing project conventions.\n4. Add or update focused tests when behavior changes.\n5. Run the most relevant formatter and tests, then report what passed or could not be run.";

/// What is understood of a prompt with this intent, and the prompt that is made of it.
pub open spec fn enhancement_of(prompt: Seq<char>, intent: PromptIntent) -> (
    Seq<char>,
    Seq<char>,
) {
    match intent {
        PromptIntent::KeepOriginal => (
            KEEP_ORIGINAL_UNDERSTANDING@ + prompt + "\"."@,
            prompt,
        ),
        PromptIntent::SummarizeRecentCommits => (
            RECENT_COMMITS_UNDERSTANDING@,
            "Task: "@ + prompt + RECENT_COMMITS_GUIDANCE@,
        ),
        PromptIntent::CodingTask => (
            CODING_TASK_UNDERSTANDING@ + prompt + CODING_TASK_UNDERSTANDING_END@,
            "Task: "@ + prompt + CODING_TASK_GUIDANCE@,
        ),
    }
}

fn around(before: &str, text: &str, after: &str) -> (r: String)
    ensures
        r@ == before@ + text@ + after@,
{
    let mut out = before.to_owned();
    out.append(text);
    out.append(after);
    out
}

/// A prompt that is answered as it is.
pub fn keep_original_prompt(original_prompt: &str) -> (r: (String, String))
    ensures
        (r.0@, r.1@) == enhancement_of(original_prompt@, PromptIntent::KeepOriginal),
{
    (
        around(KEEP_ORIGINAL_UNDERSTANDING, original_prompt, "\"."),
        original_prompt.to_owned(),
    )
}

/// A prompt that asks for a summary of recent commits.
pub fn summarize_recent_commits_prompt(original_prompt: &str) -> (r: (String, String))
    ensures
        (r.0@, r.1@) == enhancement_of(original_prompt@, PromptIntent::SummarizeRecentCommits),
{
    (
        RECENT_COMMITS_UNDERSTANDING.to_owned(),
        around("Task: ", original_prompt, RECENT_COMMITS_GUIDANCE),
    )
}

/// A prompt that asks for a change of the code.
pub fn coding_task_prompt(original_prompt: &str) -> (r: (String, String))
    ensures
        (r.0@, r.1@) == enhancement_of(original_prompt@, PromptIntent::CodingTask),
{
    (
        around(CODING_TASK_UNDERSTANDING, original_prompt, CODING_TASK_UNDERSTANDING_END),
        around("Task: ", original_prompt, CODING_TASK_GUIDANCE),
    )
}

/// The preview that the fixed rules give of a prompt.
pub open spec fn preview_of(prompt: Seq<char>) -> Preview {
    let original_prompt = trimmed(prompt);
    let (understanding, enhanced_prompt) = enhancement_of(
        original_prompt,
        intent_of(original_prompt),
    );
    Preview { original_prompt, understanding, enhanced_prompt }
}

/// The preview that the fixed rules give of a prompt.
pub fn enhance_prompt(prompt: &str) -> (r: PromptPilotPreview)
    ensures
        r@ == preview_of(prompt@),
{
    let original_prompt = trim(prompt).to_owned();
    let (understanding, enhanced_prompt) = match detect_intent(original_prompt.as_str()) {
        PromptIntent::KeepOriginal => keep_original_prompt(original_prompt.as_str()),
        PromptIntent::SummarizeRecentCommits => summarize_recent_commits_prompt(
            original_prompt.as_str(),
        ),
        PromptIntent::CodingTask => coding_task_prompt(original_prompt.as_str()),
    };
    PromptPilotPreview { original_prompt, understanding, enhanced_prompt }
}

/// Whatever the rules add, the prompt itself stands unchanged in the enhanced prompt.
pub proof fn law_prompt_is_kept(prompt: Seq<char>)
    ensures
        has_text(preview_of(prompt).enhanced_prompt, trimmed(prompt)),
        preview_of(prompt).original_prompt == trimmed(prompt),
{
    let p = trimmed(prompt);
    let all = preview_of(prompt).enhanced_prompt;
    match intent_of(p) {
        PromptIntent::KeepOriginal => {
            assert(all.subrange(0, p.len() as int) =~= p);
            assert(crate::text::occurs_at(all, p, 0));
        },
        _ => {
            let k = "Task: "@.len() as int;
            assert(all.subrange(k, k + p.len()) =~= p);
            assert(crate::text::occurs_at(all, p, k));
        },
    }
}

proof fn lemma_lower_white(c: char)
    ensures
        is_white_space(crate::text::ascii_lower_char(c)) == is_white_space(c),
        crate::text::ascii_lower_char(c) == '?' <==> c == '?',
{
    vstd::utf8::char_is_scalar(c);
    lemma_lower_char(c);
    vstd::utf8::char_is_scalar(crate::text::ascii_lower_char(c));
}

proof fn lemma_trimmed_lower(s: Seq<char>)
    ensures
        trimmed(ascii_lower(s)) == ascii_lower(trimmed(s)),
        finishes_with(trimmed(ascii_lower(s)), "?"@) == finishes_with(trimmed(s), "?"@),
{
    reveal_strlit("?");
    let t = ascii_lower(s);
    let p = white_space();
    let (i, j) = lemma_trimmed_where(s, p);
    let inner = s.subrange(i, j);
    assert forall|k: int| 0 <= k < s.len() implies is_white_space(#[trigger] t[k])
        == is_white_space(s[k]) by {
        lemma_lower_white(s[k]);
    }
    if i < j {
        let a = t.subrange(0, i);
        let b = t.subrange(i, j);
        let c = t.subrange(j, s.len() as int);
        assert(t =~= a + b + c);
        assert(b =~= ascii_lower(inner));
        assert forall|k: int| 0 <= k < a.len() implies is_white_space(#[trigger] a[k]) by {
            assert(p(s[k]));
            assert(a[k] == t[k]);
        }
        assert forall|k: int| 0 <= k < c.len() implies is_white_space(#[trigger] c[k]) by {
            assert(p(s[j + k]));
            assert(c[k] == t[j + k]);
        }
        assert(!p(s[i]) && !p(s[j - 1]));
        assert(b[0] == t[i] && b.last() == t[j - 1]);
        law_trimmed_keeps(a, b, c);
        lemma_lower_white(s[j - 1]);
        assert(inner.last() == s[j - 1]);
        assert(inner.skip(inner.len() - 1) =~= seq![inner.last()]);
        assert(b.skip(b.len() - 1) =~= seq![b.last()]);
        assert("?"@ =~= seq!['?']);
        assert(seq![inner.last()][0] == inner.last() && seq![b.last()][0] == b.last());
        assert(seq!['?'][0] == '?');
    } else {
        assert forall|k: int| 0 <= k < t.len() implies is_white_space(#[trigger] t[k]) by {
            if k < i {
                assert(p(s[k]));
            } else {
                assert(p(s[k]));
            }
        }
        law_blank(t);
        assert(trimmed(t) =~= ascii_lower(trimmed(s)));
    }
}

/// What a prompt asks for does not depend on whether its letters are capitals. A blank prompt, a
/// question, a greeting and thanks are answered as they are. Otherwise a prompt that speaks of
/// commits and of a summary, or of what is recent, asks for a summary of commits, and every other one
/// is a coding task.
pub proof fn law_intent(p: Seq<char>, q: Seq<char>)
    requires
        ascii_lower(p) == ascii_lower(q),
    ensures
        intent_of(p) == intent_of(q),
        ({
            let low = ascii_lower(p);
            let kept = is_blank(p) || finishes_with(trimmed(p), "?"@) || low == "hello"@ || low
                == "hi"@ || low == "hey"@ || low == "thanks"@ || low == "thank you"@ || low
                == "你好"@ || low == "谢谢"@;
            let commits = has_text(low, "commit"@) || has_text(p, "提交"@);
            let summary = has_text(low, "summarize"@) || has_text(low, "summary"@) || has_text(
                low,
                "recent"@,
            ) || has_text(p, "总结"@) || has_text(p, "最近"@);
            intent_of(p) == (if kept {
                PromptIntent::KeepOriginal
            } else if commits && summary {
                PromptIntent::SummarizeRecentCommits
            } else {
                PromptIntent::CodingTask
            })
        }),
{
    lemma_trimmed_lower(p);
    lemma_trimmed_lower(q);
    assert(ascii_lower(trimmed(p)).len() == trimmed(p).len());
    assert(ascii_lower(trimmed(q)).len() == trimmed(q).len());
    lemma_intent_words(p, q);
    lemma_intent_words(q, p);
}

proof fn lemma_intent_words(p: Seq<char>, q: Seq<char>)
    requires
        ascii_lower(p) == ascii_lower(q),
    ensures
        has_text(p, "提交"@) ==> has_text(q, "提交"@),
        has_text(p, "总结"@) ==> has_text(q, "总结"@),
        has_text(p, "最近"@) ==> has_text(q, "最近"@),
{
    reveal_strlit("提交");
    reveal_strlit("总结");
    reveal_strlit("最近");
    if has_text(p, "提交"@) {
        crate::context_pack::lemma_occurs_in_both(p, q, "提交"@);
    }
    if has_text(p, "总结"@) {
        crate::context_pack::lemma_occurs_in_both(p, q, "总结"@);
    }
    if has_text(p, "最近"@) {
        crate::context_pack::lemma_occurs_in_both(p, q, "最近"@);
    }
}

/// What the rules make of a prompt: one that is answered as it is stays as it is, and every other one
/// is put after `Task: ` with guidance after it. The prompt is quoted in what is understood of it,
/// save where commits are to be summed up. White space around the prompt makes no difference.
pub proof fn law_enhanced_by_rules(prompt: Seq<char>)
    ensures
        ({
            let p = trimmed(prompt);
            let out = preview_of(prompt);
            &&& intent_of(p) == PromptIntent::KeepOriginal ==> out.enhanced_prompt == p
            &&& intent_of(p) != PromptIntent::KeepOriginal ==> begins_with(
                out.enhanced_prompt,
                "Task: "@ + p,
            )
            &&& intent_of(p) == PromptIntent::SummarizeRecentCommits ==> finishes_with(
                out.enhanced_prompt,
                RECENT_COMMITS_GUIDANCE@,
            )
            &&& intent_of(p) == PromptIntent::CodingTask ==> finishes_with(
                out.enhanced_prompt,
                CODING_TASK_GUIDANCE@,
            )
            &&& intent_of(p) != PromptIntent::SummarizeRecentCommits ==> has_text(
                out.understanding,
                p,
            )
            &&& preview_of(p) == out
        }),
{
    let p = trimmed(prompt);
    let out = preview_of(prompt);
    let head = "Task: "@ + p;
    crate::text::lemma_trimmed_idempotent(prompt);
    match intent_of(p) {
        PromptIntent::KeepOriginal => {
            lemma_has_middle(KEEP_ORIGINAL_UNDERSTANDING@, p, "\"."@);
        },
        PromptIntent::SummarizeRecentCommits => {
            let all = head + RECENT_COMMITS_GUIDANCE@;
            assert(all.take(head.len() as int) =~= head);
            assert(all.skip(all.len() - RECENT_COMMITS_GUIDANCE@.len()) =~= RECENT_COMMITS_GUIDANCE@);
        },
        PromptIntent::CodingTask => {
            let all = head + CODING_TASK_GUIDANCE@;
            assert(all.take(head.len() as int) =~= head);
            assert(all.skip(all.len() - CODING_TASK_GUIDANCE@.len()) =~= CODING_TASK_GUIDANCE@);
            lemma_has_middle(
                CODING_TASK_UNDERSTANDING@,
                p,
                CODING_TASK_UNDERSTANDING_END@,
            );
        },
    }
}

} // verus!
