//! What is known of a prompt and of the project that it is written in.
use vstd::prelude::*;
use crate::ordered::{
    increasing, insert_ordered, insert_text, law_sorted_set, law_sorted_texts, sort_texts,
    sorted_set, sorted_texts, text_less, text_order,
};
use crate::paths::{
    extension, extension_of, insert_path, is_absolute, is_absolute_path, law_path_order, path_less,
    path_order, path_string, path_text, relative_path, relative_to, same_path,
};
use crate::text::{
    ascii_lower, begins_with, char_is_ascii_digit, char_is_ascii_letter, contains, contains_char,
    char_is_white_space, filter_texts, first_of, first_texts, has_char, has_text, is_ascii_digit,
    is_ascii_letter, is_white_space, law_ascii_lower, law_blank, law_split_finds, law_split_piece,
    law_words, lemma_filter_contains, lemma_filter_push, lemma_lower_char, lemma_take_push,
    lemma_texts_push, occurs_at, same_text, split, split_where, split_words, starts_with, texts,
    to_ascii_lower, trim, trim_each, trimmed, trimmed_each, trimmed_where, white_space, words,
};

verus! {

/// Everything that is known when a prompt is enhanced.
#[derive(Clone, Debug, PartialEq, Eq)]
pub struct ContextPack {
    pub intent: IntentBlock,
    pub project: ProjectBlock,
    pub project_docs: Vec<ProjectDocBlock>,
    pub rules: Vec<RuleBlock>,
    pub git: Option<GitBlock>,
    pub relevant_files: Vec<RelevantFileBlock>,
    pub warnings: Vec<ContextWarning>,
    pub budget: BudgetUsage,
}

/// What the prompt itself says.
#[derive(Clone, Debug, PartialEq, Eq)]
pub struct IntentBlock {
    pub original_prompt: String,
    pub language: String,
    pub hard_constraints: Vec<String>,
    pub mentioned_paths: Vec<String>,
    pub keywords: Vec<String>,
}

/// What the manifests say of the project.
#[derive(Clone, Debug, PartialEq, Eq)]
pub struct ProjectBlock {
    pub repo_root: String,
    pub detected_languages: Vec<String>,
    pub workspace_kind: Option<String>,
    pub relevant_modules: Vec<String>,
    pub test_commands: Vec<String>,
    pub manifests: Vec<ManifestBlock>,
}

/// One document of the project.
#[derive(Clone, Debug, PartialEq, Eq)]
pub struct ProjectDocBlock {
    pub path: String,
    pub content: String,
    pub truncated: bool,
}

/// One manifest of the project.
#[derive(Clone, Debug, PartialEq, Eq)]
pub struct ManifestBlock {
    pub path: String,
    pub summary: String,
}

/// One file of rules for agents.
#[derive(Clone, Debug, PartialEq, Eq)]
pub struct RuleBlock {
    pub path: String,
    pub summary_or_content: String,
    pub truncated: bool,
}

/// The state of the git worktree.
#[derive(Clone, Debug, PartialEq, Eq)]
pub struct GitBlock {
    pub branch: Option<String>,
    pub has_changes: bool,
    pub changed_files: Vec<String>,
    pub status_short: String,
    pub diff_stat: Option<String>,
}

/// One file that may matter for the prompt.
#[derive(Clone, Debug, PartialEq, Eq)]
pub struct RelevantFileBlock {
    pub path: String,
    pub reason: String,
    /// How sure it is that the file matters, in hundredths.
    pub confidence: u8,
    pub evidence: Vec<String>,
}

/// Something that the reader of a context pack should know.
#[derive(Clone, Debug, PartialEq, Eq)]
pub struct ContextWarning {
    pub message: String,
}

/// How much of the context each source takes.
#[derive(Clone, Copy, Debug, PartialEq, Eq, Structural)]
pub struct BudgetUsage {
    pub project_doc_bytes: usize,
    pub rule_bytes: usize,
    pub git_bytes: usize,
    pub relevant_file_count: usize,
}

// ---------------------------------------------------------------------------
// Language
// ---------------------------------------------------------------------------

/// Whether `c` is one of the common Chinese characters.
pub open spec fn is_cjk(c: char) -> bool {
    0x4E00 <= c as u32 <= 0x9FFF
}

/// The class of common Chinese characters.
pub open spec fn cjk() -> spec_fn(char) -> bool {
    |c: char| is_cjk(c)
}

/// The class of ASCII letters.
pub open spec fn ascii_letters() -> spec_fn(char) -> bool {
    |c: char| is_ascii_letter(c)
}

/// Whether a prompt counts as Chinese: it has Chinese characters, and at least one for each three
/// ASCII letters.
pub open spec fn is_chinese(prompt: Seq<char>) -> bool {
    let chinese = prompt.filter(cjk()).len();
    let latin = prompt.filter(ascii_letters()).len();
    chinese > 0 && chinese * 3 >= latin
}

/// The language of a prompt.
pub open spec fn language_of(prompt: Seq<char>) -> Seq<char> {
    if is_chinese(prompt) {
        "zh"@
    } else {
        "en"@
    }
}

fn char_is_cjk(c: char) -> (r: bool)
    ensures
        r == is_cjk(c),
{
    let n: u32 = c as u32;
    0x4E00 <= n && n <= 0x9FFF
}

/// The language of a prompt: `zh` or `en`.
pub fn detect_language(prompt: &str) -> (r: &'static str)
    ensures
        r@ == language_of(prompt@),
{
    let chars = crate::text::chars_of(prompt);
    let mut chinese: usize = 0;
    let mut latin: usize = 0;
    let mut i: usize = 0;
    proof {
        reveal(Seq::filter);
        assert(prompt@.take(0) =~= Seq::<char>::empty());
    }
    while i < chars.len()
        invariant
            chars@ == prompt@,
            i <= chars@.len(),
            chinese <= i,
            latin <= i,
            chinese == prompt@.take(i as int).filter(cjk()).len(),
            latin == prompt@.take(i as int).filter(ascii_letters()).len(),
        decreases chars@.len() - i,
    {
        proof {
            lemma_take_push(prompt@, i as int);
            lemma_filter_push(prompt@.take(i as int), prompt@[i as int], cjk());
            lemma_filter_push(prompt@.take(i as int), prompt@[i as int], ascii_letters());
        }
        if char_is_cjk(chars[i]) {
            chinese += 1;
        }
        if char_is_ascii_letter(chars[i]) {
            latin += 1;
        }
        i += 1;
    }
    proof {
        assert(prompt@.take(prompt@.len() as int) =~= prompt@);
    }
    if chinese > 0 && (chinese > usize::MAX / 3 || chinese * 3 >= latin) {
        "zh"
    } else {
        "en"
    }
}

// ---------------------------------------------------------------------------
// Constraints
// ---------------------------------------------------------------------------

/// Whether `c` ends a sentence of a prompt.
pub open spec fn is_sentence_end(c: char) -> bool {
    c == '\n' || c == '。' || c == ';' || c == '；'
}

/// The class of characters that end a sentence.
pub open spec fn sentence_ends() -> spec_fn(char) -> bool {
    |c: char| is_sentence_end(c)
}

/// Whether a sentence states a constraint.
pub open spec fn is_constraint(part: Seq<char>) -> bool {
    let lower = ascii_lower(part);
    &&& part.len() > 0
    &&& {
        ||| has_text(part, "必须"@)
        ||| has_text(part, "不要"@)
        ||| has_text(part, "不能"@)
        ||| has_text(part, "只"@)
        ||| has_text(lower, "must"@)
        ||| has_text(lower, "do not"@)
        ||| has_text(lower, "don't"@)
        ||| has_text(lower, "never"@)
        ||| has_text(lower, "only"@)
        ||| has_text(lower, "should not"@)
    }
}

/// The class of sentences that state a constraint.
pub open spec fn constraints() -> spec_fn(Seq<char>) -> bool {
    |part: Seq<char>| is_constraint(part)
}

/// The first eight sentences of a prompt that state a constraint, without white space around them.
pub open spec fn hard_constraints_of(prompt: Seq<char>) -> Seq<Seq<char>> {
    first_of(
        trimmed_each(split_where(prompt, sentence_ends()), white_space()).filter(constraints()),
        8,
    )
}

fn char_ends_sentence(c: char) -> (r: bool)
    ensures
        r == is_sentence_end(c),
{
    c == '\n' || c == '。' || c == ';' || c == '；'
}

fn states_constraint(part: &str) -> (r: bool)
    ensures
        r == is_constraint(part@),
{
    let lower = to_ascii_lower(part);
    let low = lower.as_str();
    !part.is_empty() && (contains(part, "必须") || contains(part, "不要") || contains(
        part,
        "不能",
    ) || contains(part, "只") || contains(low, "must") || contains(low, "do not") || contains(
        low,
        "don't",
    ) || contains(low, "never") || contains(low, "only") || contains(low, "should not"))
}

/// The first eight sentences of a prompt that state a constraint.
pub fn extract_hard_constraints(prompt: &str) -> (out: Vec<String>)
    ensures
        texts(out@) == hard_constraints_of(prompt@),
{
    let sentences = trim_each(
        &split(prompt, char_ends_sentence, Ghost(sentence_ends())),
        char_is_white_space,
        Ghost(white_space()),
    );
    first_texts(&filter_texts(&sentences, states_constraint, Ghost(constraints())), 8)
}

// ---------------------------------------------------------------------------
// Paths in a prompt
// ---------------------------------------------------------------------------

/// Whether `c` is punctuation that can stand around a path in a text.
pub open spec fn is_path_edge(c: char) -> bool {
    ||| c == '`'
    ||| c == '"'
    ||| c == '\''
    ||| c == ','
    ||| c == '.'
    ||| c == ':'
    ||| c == ';'
    ||| c == '('
    ||| c == ')'
    ||| c == '['
    ||| c == ']'
    ||| c == '{'
    ||| c == '}'
    ||| c == '<'
    ||| c == '>'
    ||| c == '，'
    ||| c == '。'
    ||| c == '；'
    ||| c == '：'
}

/// The class of punctuation that can stand around a path.
pub open spec fn path_edges() -> spec_fn(char) -> bool {
    |c: char| is_path_edge(c)
}

/// Whether `ext` is an extension by which a name is taken for a file.
pub open spec fn is_known_extension(ext: Seq<char>) -> bool {
    ||| ext == "rs"@
    ||| ext == "md"@
    ||| ext == "toml"@
    ||| ext == "json"@
    ||| ext == "py"@
    ||| ext == "go"@
    ||| ext == "ts"@
    ||| ext == "tsx"@
    ||| ext == "js"@
    ||| ext == "jsx"@
    ||| ext == "yaml"@
    ||| ext == "yml"@
}

/// Whether a path has an extension by which it is taken for a file.
pub open spec fn known_extension(path: Seq<char>) -> bool {
    extension_of(path) matches Some(ext) && is_known_extension(ext)
}

/// Whether a text is a web address.
pub open spec fn is_web_address(token: Seq<char>) -> bool {
    begins_with(token, "http://"@) || begins_with(token, "https://"@)
}

/// Whether a word of a prompt is taken for a path.
pub open spec fn is_path_like(token: Seq<char>) -> bool {
    &&& !is_web_address(token)
    &&& {
        ||| begins_with(token, "./"@)
        ||| begins_with(token, "../"@)
        ||| has_char(token, '/')
        ||| has_char(token, '\\')
        ||| known_extension(token)
    }
}

/// The class of words that are taken for a path.
pub open spec fn path_like() -> spec_fn(Seq<char>) -> bool {
    |token: Seq<char>| is_path_like(token)
}

/// An absolute path relative to `repo_root`, and every other path as it is.
pub open spec fn repo_path(path: Seq<char>, repo_root: Seq<char>) -> Seq<char> {
    if is_absolute_path(path) {
        relative_to(path, repo_root)
    } else {
        path
    }
}

/// The paths relative to `repo_root`.
pub open spec fn repo_paths(paths: Seq<Seq<char>>, repo_root: Seq<char>) -> Seq<Seq<char>> {
    Seq::new(paths.len(), |i: int| repo_path(paths[i], repo_root))
}

/// The words of a prompt that are taken for a path, without the punctuation around them.
pub open spec fn path_words(prompt: Seq<char>) -> Seq<Seq<char>> {
    trimmed_each(words(prompt), path_edges()).filter(path_like())
}

/// The paths that a prompt mentions, in the order of paths, each once.
pub open spec fn mentioned_paths_of(prompt: Seq<char>, repo_root: Seq<char>) -> Seq<Seq<char>> {
    sorted_set(repo_paths(path_words(prompt), repo_root), path_order())
}

pub(crate) fn char_is_path_edge(c: char) -> (r: bool)
    ensures
        r == is_path_edge(c),
{
    c == '`' || c == '"' || c == '\'' || c == ',' || c == '.' || c == ':' || c == ';' || c == '('
        || c == ')' || c == '[' || c == ']' || c == '{' || c == '}' || c == '<' || c == '>' || c
        == '，' || c == '。' || c == '；' || c == '：'
}

/// Whether `path` has an extension by which it is taken for a file.
pub(crate) fn has_known_extension(path: &str) -> (r: bool)
    ensures
        r == known_extension(path@),
{
    match extension(path) {
        Some(ext) => {
            let e = ext.as_str();
            same_text(e, "rs") || same_text(e, "md") || same_text(e, "toml") || same_text(e, "json")
                || same_text(e, "py") || same_text(e, "go") || same_text(e, "ts") || same_text(
                e,
                "tsx",
            ) || same_text(e, "js") || same_text(e, "jsx") || same_text(e, "yaml") || same_text(
                e,
                "yml",
            )
        },
        None => false,
    }
}

/// Whether a word of a prompt is taken for a path.
pub fn looks_like_path(token: &str) -> (r: bool)
    ensures
        r == is_path_like(token@),
{
    if starts_with(token, "http://") || starts_with(token, "https://") {
        return false;
    }
    starts_with(token, "./") || starts_with(token, "../") || contains_char(token, '/')
        || contains_char(token, '\\') || has_known_extension(token)
}

/// An absolute path relative to `repo_root`, and every other path as it is.
pub fn normalize_repo_path(path: &str, repo_root: &str) -> (r: String)
    ensures
        r@ == repo_path(path@, repo_root@),
{
    if is_absolute(path) {
        relative_path(path, repo_root)
    } else {
        path.to_owned()
    }
}

/// The paths that a prompt mentions, in the order of paths, each once.
pub fn extract_mentioned_paths(prompt: &str, repo_root: &str) -> (out: Vec<String>)
    ensures
        texts(out@) == mentioned_paths_of(prompt@, repo_root@),
{
    let tokens = filter_texts(
        &trim_each(&split_words(prompt), char_is_path_edge, Ghost(path_edges())),
        looks_like_path,
        Ghost(path_like()),
    );
    let ghost found = repo_paths(path_words(prompt@), repo_root@);
    let mut out: Vec<String> = Vec::new();
    let mut i: usize = 0;
    proof {
        assert(found.take(0) =~= Seq::<Seq<char>>::empty());
        assert(texts(out@) =~= Seq::<Seq<char>>::empty());
    }
    while i < tokens.len()
        invariant
            i <= tokens@.len(),
            texts(tokens@) == path_words(prompt@),
            found == repo_paths(path_words(prompt@), repo_root@),
            texts(out@) == sorted_set(found.take(i as int), path_order()),
        decreases tokens@.len() - i,
    {
        proof {
            assert(found.take(i + 1).drop_last() =~= found.take(i as int));
            assert(texts(tokens@)[i as int] == tokens@[i as int]@);
        }
        insert_path(&mut out, normalize_repo_path(tokens[i].as_str(), repo_root));
        i += 1;
    }
    proof {
        assert(found.len() == tokens@.len());
        assert(found.take(found.len() as int) =~= found);
    }
    out
}

// ---------------------------------------------------------------------------
// Keywords
// ---------------------------------------------------------------------------

/// Whether `c` can stand in a keyword.
pub open spec fn is_keyword_char(c: char) -> bool {
    is_ascii_letter(c) || is_ascii_digit(c) || c == '_' || c == '-' || is_cjk(c)
}

/// The class of characters that stand between keywords.
pub open spec fn keyword_gaps() -> spec_fn(char) -> bool {
    |c: char| !is_keyword_char(c)
}

/// Whether a word is too common to be a keyword.
pub open spec fn is_common_word(value: Seq<char>) -> bool {
    ||| value == "the"@
    ||| value == "and"@
    ||| value == "for"@
    ||| value == "with"@
    ||| value == "this"@
    ||| value == "that"@
    ||| value == "into"@
    ||| value == "from"@
    ||| value == "should"@
    ||| value == "please"@
    ||| value == "帮我"@
    ||| value == "一下"@
    ||| value == "这个"@
    ||| value == "我们"@
    ||| value == "现在"@
}

/// A word as it would be a keyword: without white space around it, in lower case.
pub open spec fn keyword_text(value: Seq<char>) -> Seq<char> {
    ascii_lower(trimmed(value))
}

/// The class of words that are keywords: two characters or more, and not too common.
pub open spec fn keywords_class() -> spec_fn(Seq<char>) -> bool {
    |value: Seq<char>| value.len() >= 2 && !is_common_word(value)
}

/// The words as they would be keywords.
pub open spec fn keyword_texts(values: Seq<Seq<char>>) -> Seq<Seq<char>> {
    Seq::new(values.len(), |i: int| keyword_text(values[i]))
}

/// The first sixteen keywords of a prompt in dictionary order.
pub open spec fn keywords_of(prompt: Seq<char>) -> Seq<Seq<char>> {
    first_of(
        sorted_texts(
            keyword_texts(split_where(prompt, keyword_gaps())).filter(keywords_class()),
        ),
        16,
    )
}

fn char_is_keyword_gap(c: char) -> (r: bool)
    ensures
        r == !is_keyword_char(c),
{
    !(char_is_ascii_letter(c) || char_is_ascii_digit(c) || c == '_' || c == '-' || char_is_cjk(c))
}

/// Whether a word is too common to be a keyword.
pub fn is_stop_word(value: &str) -> (r: bool)
    ensures
        r == is_common_word(value@),
{
    same_text(value, "the") || same_text(value, "and") || same_text(value, "for") || same_text(
        value,
        "with",
    ) || same_text(value, "this") || same_text(value, "that") || same_text(value, "into")
        || same_text(value, "from") || same_text(value, "should") || same_text(value, "please")
        || same_text(value, "帮我") || same_text(value, "一下") || same_text(value, "这个")
        || same_text(value, "我们") || same_text(value, "现在")
}

/// Puts a word among the keywords, where it is one.
pub fn insert_keyword(keywords: &mut Vec<String>, value: &str)
    ensures
        texts(final(keywords)@) == (if keywords_class()(keyword_text(value@)) {
            insert_ordered(texts(old(keywords)@), keyword_text(value@), text_order())
        } else {
            texts(old(keywords)@)
        }),
{
    let word = to_ascii_lower(trim(value));
    if word.as_str().unicode_len() < 2 || is_stop_word(word.as_str()) {
        return ;
    }
    insert_text(keywords, word);
}

/// The first sixteen keywords of a prompt in dictionary order.
pub fn extract_keywords(prompt: &str) -> (out: Vec<String>)
    ensures
        texts(out@) == keywords_of(prompt@),
{
    let pieces = split(prompt, char_is_keyword_gap, Ghost(keyword_gaps()));
    let ghost found = keyword_texts(split_where(prompt@, keyword_gaps()));
    let mut keywords: Vec<String> = Vec::new();
    let mut i: usize = 0;
    proof {
        reveal(Seq::filter);
        assert(found.take(0) =~= Seq::<Seq<char>>::empty());
        assert(texts(keywords@) =~= Seq::<Seq<char>>::empty());
    }
    while i < pieces.len()
        invariant
            i <= pieces@.len(),
            texts(pieces@) == split_where(prompt@, keyword_gaps()),
            found == keyword_texts(split_where(prompt@, keyword_gaps())),
            texts(keywords@) == sorted_texts(found.take(i as int).filter(keywords_class())),
        decreases pieces@.len() - i,
    {
        let ghost before = found.take(i as int).filter(keywords_class());
        insert_keyword(&mut keywords, pieces[i].as_str());
        proof {
            assert(texts(pieces@)[i as int] == pieces@[i as int]@);
            lemma_take_push(found, i as int);
            lemma_filter_push(found.take(i as int), found[i as int], keywords_class());
            assert(before.push(found[i as int]).drop_last() =~= before);
        }
        i += 1;
    }
    proof {
        assert(found.len() == pieces@.len());
        assert(found.take(found.len() as int) =~= found);
    }
    first_texts(&keywords, 16)
}

// ---------------------------------------------------------------------------
// Intent
// ---------------------------------------------------------------------------

impl IntentBlock {
    /// What the prompt says, for a project at `repo_root`.
    pub fn from_prompt(original_prompt: &str, repo_root: &str) -> (r: Self)
        ensures
            r.original_prompt@ == original_prompt@,
            r.language@ == language_of(original_prompt@),
            texts(r.hard_constraints@) == hard_constraints_of(original_prompt@),
            texts(r.mentioned_paths@) == mentioned_paths_of(original_prompt@, repo_root@),
            texts(r.keywords@) == keywords_of(original_prompt@),
    {
        IntentBlock {
            original_prompt: original_prompt.to_owned(),
            language: detect_language(original_prompt).to_owned(),
            hard_constraints: extract_hard_constraints(original_prompt),
            mentioned_paths: extract_mentioned_paths(original_prompt, repo_root),
            keywords: extract_keywords(original_prompt),
        }
    }
}

// ---------------------------------------------------------------------------
// Known paths
// ---------------------------------------------------------------------------

pub open spec fn doc_paths(v: Seq<ProjectDocBlock>) -> Seq<Seq<char>> {
    Seq::new(v.len(), |i: int| v[i].path@)
}

pub open spec fn manifest_paths(v: Seq<ManifestBlock>) -> Seq<Seq<char>> {
    Seq::new(v.len(), |i: int| v[i].path@)
}

pub open spec fn rule_paths(v: Seq<RuleBlock>) -> Seq<Seq<char>> {
    Seq::new(v.len(), |i: int| v[i].path@)
}

pub open spec fn file_paths(v: Seq<RelevantFileBlock>) -> Seq<Seq<char>> {
    Seq::new(v.len(), |i: int| v[i].path@)
}

/// The files that git reports as changed.
pub open spec fn changed_paths(git: Option<GitBlock>) -> Seq<Seq<char>> {
    match git {
        Some(block) => texts(block.changed_files@),
        None => Seq::empty(),
    }
}

/// The paths with `/` for every backslash.
pub open spec fn path_texts(v: Seq<Seq<char>>) -> Seq<Seq<char>> {
    Seq::new(v.len(), |i: int| path_text(v[i]))
}

impl ContextPack {
    /// Every path that the pack knows of.
    pub open spec fn known_paths(self) -> Seq<Seq<char>> {
        seq![self.project.repo_root@] + texts(self.intent.mentioned_paths@) + doc_paths(
            self.project_docs@,
        ) + manifest_paths(self.project.manifests@) + rule_paths(self.rules@) + changed_paths(
            self.git,
        ) + file_paths(self.relevant_files@)
    }

    /// The paths that an enhanced prompt may mention, in dictionary order, each once.
    pub fn allowed_path_strings(&self) -> (out: Vec<String>)
        ensures
            texts(out@) == sorted_texts(path_texts(self.known_paths())),
    {
        broadcast use lemma_texts_push;

        let mut all: Vec<String> = Vec::new();
        all.push(path_string(self.project.repo_root.as_str()));
        let ghost known = seq![self.project.repo_root@];
        proof {
            assert(texts(all@) =~= path_texts(known));
        }
        push_path_strings(&mut all, &self.intent.mentioned_paths, Ghost(known));
        let ghost known = known + texts(self.intent.mentioned_paths@);
        let mut i: usize = 0;
        proof {
            assert(known + doc_paths(self.project_docs@).take(0) =~= known);
        }
        while i < self.project_docs.len()
            invariant
                i <= self.project_docs@.len(),
                texts(all@) == path_texts(known + doc_paths(self.project_docs@).take(i as int)),
            decreases self.project_docs@.len() - i,
        {
            push_path_string(
                &mut all,
                self.project_docs[i].path.as_str(),
                Ghost(known),
                Ghost(doc_paths(self.project_docs@)),
                Ghost(i as int),
            );
            i += 1;
        }
        proof {
            let more = doc_paths(self.project_docs@);
            assert(more.take(more.len() as int) =~= more);
        }
        let ghost known = known + doc_paths(self.project_docs@);
        i = 0;
        proof {
            assert(known + manifest_paths(self.project.manifests@).take(0) =~= known);
        }
        while i < self.project.manifests.len()
            invariant
                i <= self.project.manifests@.len(),
                texts(all@) == path_texts(
                    known + manifest_paths(self.project.manifests@).take(i as int),
                ),
            decreases self.project.manifests@.len() - i,
        {
            push_path_string(
                &mut all,
                self.project.manifests[i].path.as_str(),
                Ghost(known),
                Ghost(manifest_paths(self.project.manifests@)),
                Ghost(i as int),
            );
            i += 1;
        }
        proof {
            let more = manifest_paths(self.project.manifests@);
            assert(more.take(more.len() as int) =~= more);
        }
        let ghost known = known + manifest_paths(self.project.manifests@);
        i = 0;
        proof {
            assert(known + rule_paths(self.rules@).take(0) =~= known);
        }
        while i < self.rules.len()
            invariant
                i <= self.rules@.len(),
                texts(all@) == path_texts(known + rule_paths(self.rules@).take(i as int)),
            decreases self.rules@.len() - i,
        {
            push_path_string(
                &mut all,
                self.rules[i].path.as_str(),
                Ghost(known),
                Ghost(rule_paths(self.rules@)),
                Ghost(i as int),
            );
            i += 1;
        }
        proof {
            let more = rule_paths(self.rules@);
            assert(more.take(more.len() as int) =~= more);
        }
        let ghost known = known + rule_paths(self.rules@);
        match &self.git {
            Some(git) => {
                push_path_strings(&mut all, &git.changed_files, Ghost(known));
            },
            None => {
                proof {
                    assert(known + changed_paths(self.git) =~= known);
                }
            },
        }
        let ghost known = known + changed_paths(self.git);
        i = 0;
        proof {
            assert(known + file_paths(self.relevant_files@).take(0) =~= known);
        }
        while i < self.relevant_files.len()
            invariant
                i <= self.relevant_files@.len(),
                texts(all@) == path_texts(known + file_paths(self.relevant_files@).take(i as int)),
            decreases self.relevant_files@.len() - i,
        {
            push_path_string(
                &mut all,
                self.relevant_files[i].path.as_str(),
                Ghost(known),
                Ghost(file_paths(self.relevant_files@)),
                Ghost(i as int),
            );
            i += 1;
        }
        proof {
            let more = file_paths(self.relevant_files@);
            assert(more.take(more.len() as int) =~= more);
        }
        sort_texts(&all)
    }
}

fn push_path_string(
    all: &mut Vec<String>,
    path: &str,
    Ghost(known): Ghost<Seq<Seq<char>>>,
    Ghost(more): Ghost<Seq<Seq<char>>>,
    Ghost(i): Ghost<int>,
)
    requires
        0 <= i < more.len(),
        path@ == more[i],
        texts(old(all)@) == path_texts(known + more.take(i)),
    ensures
        texts(final(all)@) == path_texts(known + more.take(i + 1)),
{
    broadcast use lemma_texts_push;

    all.push(path_string(path));
    proof {
        assert(path_texts(known + more.take(i + 1)) =~= path_texts(known + more.take(i)).push(
            path_text(more[i]),
        ));
    }
}

fn push_path_strings(
    all: &mut Vec<String>,
    paths: &Vec<String>,
    Ghost(known): Ghost<Seq<Seq<char>>>,
)
    requires
        texts(old(all)@) == path_texts(known),
    ensures
        texts(final(all)@) == path_texts(known + texts(paths@)),
{
    let mut i: usize = 0;
    proof {
        assert(known + texts(paths@).take(0) =~= known);
    }
    while i < paths.len()
        invariant
            i <= paths@.len(),
            texts(all@) == path_texts(known + texts(paths@).take(i as int)),
        decreases paths@.len() - i,
    {
        push_path_string(
            all,
            paths[i].as_str(),
            Ghost(known),
            Ghost(texts(paths@)),
            Ghost(i as int),
        );
        i += 1;
    }
    proof {
        assert(texts(paths@).take(paths@.len() as int) =~= texts(paths@));
    }
}

// ---------------------------------------------------------------------------
// Laws of the intent
// ---------------------------------------------------------------------------

/// A text without ASCII characters occurs in both or in neither of two texts that differ in the case
/// of their letters only.
pub proof fn lemma_occurs_in_both(p: Seq<char>, q: Seq<char>, part: Seq<char>)
    requires
        ascii_lower(p) == ascii_lower(q),
        forall|k: int| 0 <= k < part.len() ==> (#[trigger] part[k]) as int > 0x7F,
        has_text(p, part),
    ensures
        has_text(q, part),
{
    let i = choose|i: int| occurs_at(p, part, i);
    assert(ascii_lower(p).len() == p.len());
    assert(ascii_lower(q).len() == q.len());
    assert forall|k: int| 0 <= k < part.len() implies q[i + k] == part[k] by {
        assert(p.subrange(i, i + part.len())[k] == p[i + k]);
        assert(p[i + k] == part[k]);
        assert(ascii_lower(p)[i + k] == ascii_lower(q)[i + k]);
        lemma_lower_char(p[i + k]);
        lemma_lower_char(q[i + k]);
        assert(part[k] as int > 0x7F);
        assert(ascii_lower(p)[i + k] == crate::text::ascii_lower_char(p[i + k]));
        assert(ascii_lower(q)[i + k] == crate::text::ascii_lower_char(q[i + k]));
        assert(!('A' <= p[i + k] <= 'Z'));
        if 'A' <= q[i + k] <= 'Z' {
            assert(q[i + k] as int + 32 == p[i + k] as int);
            assert(false);
        }
    }
    assert(q.subrange(i, i + part.len()) =~= part);
    assert(occurs_at(q, part, i));
}

/// Whether a sentence states a constraint does not depend on whether its letters are capitals. A
/// sentence states one where any of these words occurs in it, in capitals or not, and otherwise
/// does not.
pub proof fn law_constraints_ignore_case(p: Seq<char>, q: Seq<char>)
    requires
        ascii_lower(p) == ascii_lower(q),
    ensures
        is_constraint(p) == is_constraint(q),
        is_constraint(p) == is_constraint(ascii_lower(p)),
        has_text(ascii_lower(p), "must"@) ==> is_constraint(p),
        has_text(ascii_lower(p), "do not"@) ==> is_constraint(p),
        has_text(ascii_lower(p), "don't"@) ==> is_constraint(p),
        has_text(ascii_lower(p), "never"@) ==> is_constraint(p),
        has_text(ascii_lower(p), "only"@) ==> is_constraint(p),
        has_text(ascii_lower(p), "should not"@) ==> is_constraint(p),
        has_text(p, "必须"@) ==> is_constraint(p),
        has_text(p, "不要"@) ==> is_constraint(p),
        has_text(p, "不能"@) ==> is_constraint(p),
        has_text(p, "只"@) ==> is_constraint(p),
        is_constraint(p) ==> has_text(ascii_lower(p), "must"@) || has_text(
            ascii_lower(p),
            "do not"@,
        ) || has_text(ascii_lower(p), "don't"@) || has_text(ascii_lower(p), "never"@) || has_text(
            ascii_lower(p),
            "only"@,
        ) || has_text(ascii_lower(p), "should not"@) || has_text(p, "必须"@) || has_text(
            p,
            "不要"@,
        ) || has_text(p, "不能"@) || has_text(p, "只"@),
{
    lemma_constraint_words(p, q);
    lemma_constraint_words(q, p);
    law_ascii_lower(p);
    lemma_constraint_words(p, ascii_lower(p));
    lemma_constraint_words(ascii_lower(p), p);
    assert(ascii_lower(p).len() == p.len());
    assert(ascii_lower(q).len() == q.len());
    reveal_strlit("must");
    reveal_strlit("do not");
    reveal_strlit("don't");
    reveal_strlit("never");
    reveal_strlit("only");
    reveal_strlit("should not");
    reveal_strlit("必须");
    reveal_strlit("不要");
    reveal_strlit("不能");
    reveal_strlit("只");
}

proof fn lemma_constraint_words(p: Seq<char>, q: Seq<char>)
    requires
        ascii_lower(p) == ascii_lower(q),
    ensures
        has_text(p, "必须"@) ==> has_text(q, "必须"@),
        has_text(p, "不要"@) ==> has_text(q, "不要"@),
        has_text(p, "不能"@) ==> has_text(q, "不能"@),
        has_text(p, "只"@) ==> has_text(q, "只"@),
{
    reveal_strlit("必须");
    reveal_strlit("不要");
    reveal_strlit("不能");
    reveal_strlit("只");
    if has_text(p, "必须"@) {
        lemma_occurs_in_both(p, q, "必须"@);
    }
    if has_text(p, "不要"@) {
        lemma_occurs_in_both(p, q, "不要"@);
    }
    if has_text(p, "不能"@) {
        lemma_occurs_in_both(p, q, "不能"@);
    }
    if has_text(p, "只"@) {
        lemma_occurs_in_both(p, q, "只"@);
    }
}

/// Whether `c` is a line feed, a semicolon, or the full stop or semicolon of Chinese texts.
pub open spec fn ends_here(c: char) -> bool {
    c == '\n' || c == ';' || c as int == 0x3002 || c as int == 0xFF1B
}

/// A sentence of a prompt that states a constraint is among the constraints, without the white
/// space around it, unless eight others are. Every constraint is such a sentence.
pub proof fn law_hard_constraints(prompt: Seq<char>, i: int, j: int)
    requires
        0 <= i <= j <= prompt.len(),
        forall|k: int| i <= k < j ==> !ends_here(#[trigger] prompt[k]),
        i > 0 ==> ends_here(prompt[i - 1]),
        j < prompt.len() ==> ends_here(prompt[j]),
        is_constraint(trimmed(prompt.subrange(i, j))),
    ensures
        hard_constraints_of(prompt).contains(trimmed(prompt.subrange(i, j)))
            || hard_constraints_of(prompt).len() == 8,
        hard_constraints_of(prompt).len() <= 8,
        forall|n: int|
            0 <= n < hard_constraints_of(prompt).len() ==> is_constraint(
                #[trigger] hard_constraints_of(prompt)[n],
            ) && has_text(prompt, hard_constraints_of(prompt)[n]),
{
    let p = sentence_ends();
    assert forall|k: int| 0 <= k < prompt.len() implies p(#[trigger] prompt[k]) == ends_here(
        prompt[k],
    ) by {
        lemma_sentence_end(prompt[k]);
    }
    assert forall|k: int| i <= k < j implies !p(#[trigger] prompt[k]) by {
        assert(!ends_here(prompt[k]));
    }
    law_split_finds(prompt, p, i, j);
    let pieces = split_where(prompt, p);
    let all = trimmed_each(pieces, white_space());
    let n = choose|n: int| 0 <= n < pieces.len() && pieces[n] == prompt.subrange(i, j);
    let t = trimmed(prompt.subrange(i, j));
    assert(all[n] == t);
    assert(all.contains(t));
    lemma_filter_contains(all, constraints(), t);
    let kept = all.filter(constraints());
    let out = hard_constraints_of(prompt);
    assert forall|n: int| 0 <= n < out.len() implies is_constraint(#[trigger] out[n]) && has_text(
        prompt,
        out[n],
    ) by {
        assert(kept[n] == out[n]);
        assert(kept.contains(out[n]));
        lemma_filter_contains(all, constraints(), out[n]);
        let m = choose|m: int| 0 <= m < all.len() && all[m] == out[n];
        let (a, b) = law_split_piece(prompt, p, m);
        law_blank(pieces[m]);
        assert(occurs_at(prompt, pieces[m], a));
        crate::text::lemma_has_text_within(prompt, pieces[m], out[n]);
    }
}

proof fn lemma_sentence_end(c: char)
    ensures
        is_sentence_end(c) == ends_here(c),
{
}

/// A prompt without Chinese characters is not Chinese, and one with Chinese characters and without
/// letters is. Where Chinese characters come first and then letters, it is Chinese exactly where
/// there are at most three letters for each Chinese character.
pub proof fn law_language(prompt: Seq<char>, n: int)
    requires
        0 <= n <= prompt.len(),
        forall|k: int| 0 <= k < n ==> 0x4E00 <= (#[trigger] prompt[k]) as int <= 0x9FFF,
        forall|k: int| n <= k < prompt.len() ==> 'a' <= #[trigger] prompt[k] <= 'z',
    ensures
        language_of(prompt) == (if n > 0 && 3 * n >= prompt.len() - n {
            "zh"@
        } else {
            "en"@
        }),
    decreases prompt.len(),
{
    lemma_language_counts(prompt, n);
}

proof fn lemma_language_counts(prompt: Seq<char>, n: int)
    requires
        0 <= n <= prompt.len(),
        forall|k: int| 0 <= k < n ==> 0x4E00 <= (#[trigger] prompt[k]) as int <= 0x9FFF,
        forall|k: int| n <= k < prompt.len() ==> 'a' <= #[trigger] prompt[k] <= 'z',
    ensures
        prompt.filter(cjk()).len() == n,
        prompt.filter(ascii_letters()).len() == prompt.len() - n,
    decreases prompt.len(),
{
    reveal(Seq::filter);
    if prompt.len() > 0 {
        let init = prompt.drop_last();
        let c = prompt[prompt.len() - 1];
        assert(prompt =~= init.push(c));
        lemma_filter_push(init, c, cjk());
        lemma_filter_push(init, c, ascii_letters());
        let m = if n == prompt.len() {
            n - 1
        } else {
            n
        };
        lemma_language_counts(init, m);
        vstd::utf8::char_is_scalar(c);
    }
}

proof fn lemma_cjk(c: char)
    ensures
        is_cjk(c) == (0x4E00 <= c as int <= 0x9FFF),
{
    vstd::utf8::char_is_scalar(c);
}

/// The language of a prompt with one character more: a character that is neither Chinese nor a
/// letter changes nothing, a Chinese one never makes a Chinese prompt another, and a letter never
/// makes another prompt Chinese.
pub proof fn law_language_grows(prompt: Seq<char>, c: char)
    ensures
        !(0x4E00 <= c as int <= 0x9FFF) && !('a' <= c <= 'z') && !('A' <= c <= 'Z') ==> language_of(
            prompt.push(c),
        ) == language_of(prompt),
        0x4E00 <= c as int <= 0x9FFF && language_of(prompt) == "zh"@ ==> language_of(prompt.push(c))
            == "zh"@,
        ('a' <= c <= 'z' || 'A' <= c <= 'Z') && language_of(prompt) == "en"@ ==> language_of(
            prompt.push(c),
        ) == "en"@,
        (forall|k: int| 0 <= k < prompt.len() ==> !(0x4E00 <= (#[trigger] prompt[k]) as int <= 0x9FFF))
            ==> language_of(prompt) == "en"@,
{
    reveal_strlit("zh");
    reveal_strlit("en");
    assert("zh"@[0] == 'z' && "en"@[0] == 'e');
    vstd::utf8::char_is_scalar(c);
    lemma_filter_push(prompt, c, cjk());
    lemma_filter_push(prompt, c, ascii_letters());
    if forall|k: int| 0 <= k < prompt.len() ==> !(0x4E00 <= (#[trigger] prompt[k]) as int <= 0x9FFF) {
        let kept = prompt.filter(cjk());
        if kept.len() > 0 {
            lemma_filter_contains(prompt, cjk(), kept[0]);
            assert(kept.contains(kept[0]));
            let k = choose|k: int| 0 <= k < prompt.len() && prompt[k] == kept[0];
            lemma_cjk(prompt[k]);
            assert(cjk()(prompt[k]));
            assert(!(0x4E00 <= prompt[k] as int <= 0x9FFF));
            assert(false);
        }
    }
}

/// Where a word of a prompt, without the punctuation around it, has a slash or a backslash or a
/// known extension and is no web address, the prompt mentions the path that it is, by the project's
/// root. The paths stand in their order, none twice, and each comes from such a word.
#[verifier::spinoff_prover]
pub proof fn law_mentioned_paths(prompt: Seq<char>, repo_root: Seq<char>, i: int, j: int)
    requires
        0 <= i < j <= prompt.len(),
        forall|k: int| i <= k < j ==> !is_white_space(#[trigger] prompt[k]),
        i > 0 ==> is_white_space(prompt[i - 1]),
        j < prompt.len() ==> is_white_space(prompt[j]),
    ensures
        ({
            let token = trimmed_where(prompt.subrange(i, j), path_edges());
            let out = mentioned_paths_of(prompt, repo_root);
            &&& !begins_with(token, "http://"@) && !begins_with(token, "https://"@) && (
            token.contains('/') || token.contains('\\') || known_extension(token)) ==> exists|n: int|
                0 <= n < out.len() && same_path(#[trigger] out[n], repo_path(token, repo_root))
            &&& forall|a: int, b: int|
                0 <= a < b < out.len() ==> path_less(#[trigger] out[a], #[trigger] out[b])
            &&& forall|n: int|
                0 <= n < out.len() ==> exists|word: Seq<char>|
                    words(prompt).contains(word) && ({
                        let token = #[trigger] trimmed_where(word, path_edges());
                        &&& #[trigger] out[n] == repo_path(token, repo_root)
                        &&& !begins_with(token, "http://"@) && !begins_with(token, "https://"@)
                        &&& token.contains('/') || token.contains('\\') || known_extension(token)
                    })
        }),
{
    let word = prompt.subrange(i, j);
    let token = trimmed_where(word, path_edges());
    let out = mentioned_paths_of(prompt, repo_root);
    let tokens = trimmed_each(words(prompt), path_edges());
    let kept = path_words(prompt);
    let found = repo_paths(kept, repo_root);
    law_words(prompt, i, j);
    law_path_order();
    law_sorted_set(found, path_order());
    lemma_dotted(token);
    if is_path_like(token) {
        let m = choose|m: int| 0 <= m < words(prompt).len() && words(prompt)[m] == word;
        assert(tokens[m] == token);
        assert(tokens.contains(token));
        lemma_filter_contains(tokens, path_like(), token);
        let n = choose|n: int| 0 <= n < kept.len() && kept[n] == token;
        assert(found[n] == repo_path(token, repo_root));
        assert(found.contains(repo_path(token, repo_root)));
        let x = repo_path(token, repo_root);
        let y = choose|y: Seq<char>| #[trigger]
            sorted_set(found, path_order()).contains(y) && !path_order()(x, y) && !path_order()(
                y,
                x,
            );
        assert(!path_less(x, y) && !path_less(y, x));
        assert(same_path(y, x));
        let n = choose|n: int| 0 <= n < out.len() && out[n] == y;
        assert(same_path(out[n], x));
    }
    assert forall|a: int, b: int| 0 <= a < b < out.len() implies path_less(
        #[trigger] out[a],
        #[trigger] out[b],
    ) by {
        assert(path_order()(out[a], out[b]));
    }
    assert forall|n: int| 0 <= n < out.len() implies exists|word: Seq<char>|
        words(prompt).contains(word) && ({
            let token = #[trigger] trimmed_where(word, path_edges());
            &&& #[trigger] out[n] == repo_path(token, repo_root)
            &&& !begins_with(token, "http://"@) && !begins_with(token, "https://"@)
            &&& token.contains('/') || token.contains('\\') || known_extension(token)
        }) by {
        assert(out.contains(out[n]));
        assert(found.contains(out[n]));
        let m = choose|m: int| 0 <= m < found.len() && found[m] == out[n];
        let t = kept[m];
        assert(kept.contains(t));
        lemma_filter_contains(tokens, path_like(), t);
        let a = choose|a: int| 0 <= a < tokens.len() && tokens[a] == t;
        let w = words(prompt)[a];
        assert(words(prompt).contains(w));
        lemma_dotted(t);
        assert(trimmed_where(w, path_edges()) == t);
    }
}

proof fn lemma_dotted(token: Seq<char>)
    ensures
        begins_with(token, "./"@) ==> token.contains('/'),
        begins_with(token, "../"@) ==> token.contains('/'),
{
    reveal_strlit("./");
    reveal_strlit("../");
    if begins_with(token, "./"@) {
        assert(token.take(2)[1] == token[1]);
        assert("./"@[1] == '/');
        assert(token[1] == '/');
    }
    if begins_with(token, "../"@) {
        assert(token.take(3)[2] == token[2]);
        assert("../"@[2] == '/');
        assert(token[2] == '/');
    }
}

/// A longest run of letters, digits, `_`, `-` and Chinese characters is a keyword in lower case,
/// where it has two characters or more and is no common word, unless sixteen keywords come before
/// it. The keywords stand in dictionary order, none twice, and are in lower case.
pub proof fn law_keywords(prompt: Seq<char>, i: int, j: int)
    requires
        0 <= i <= j <= prompt.len(),
        forall|k: int| i <= k < j ==> is_keyword_char(#[trigger] prompt[k]),
        i > 0 ==> !is_keyword_char(prompt[i - 1]),
        j < prompt.len() ==> !is_keyword_char(prompt[j]),
    ensures
        ({
            let word = ascii_lower(prompt.subrange(i, j));
            let out = keywords_of(prompt);
            &&& out.len() <= 16
            &&& j - i >= 2 && !is_common_word(word) ==> out.contains(word) || out.len() == 16
                && forall|n: int| 0 <= n < out.len() ==> text_less(#[trigger] out[n], word)
            &&& forall|a: int, b: int|
                0 <= a < b < out.len() ==> text_less(#[trigger] out[a], #[trigger] out[b])
            &&& forall|n: int|
                0 <= n < out.len() ==> (#[trigger] out[n]).len() >= 2 && !is_common_word(out[n])
                    && ascii_lower(out[n]) == out[n] && has_text(ascii_lower(prompt), out[n])
        }),
{
    let p = keyword_gaps();
    let word = ascii_lower(prompt.subrange(i, j));
    let pieces = split_where(prompt, p);
    let all = keyword_texts(pieces);
    let kept = all.filter(keywords_class());
    let sorted = sorted_texts(kept);
    let out = keywords_of(prompt);
    law_sorted_texts(kept);
    assert forall|k: int| i <= k < j implies !p(#[trigger] prompt[k]) by {
        assert(is_keyword_char(prompt[k]));
    }
    law_split_finds(prompt, p, i, j);
    let n = choose|n: int| 0 <= n < pieces.len() && pieces[n] == prompt.subrange(i, j);
    lemma_keyword_trimmed(prompt.subrange(i, j));
    assert(all[n] == word);
    assert(all.contains(word));
    lemma_filter_contains(all, keywords_class(), word);
    assert forall|a: int, b: int| 0 <= a < b < out.len() implies text_less(
        #[trigger] out[a],
        #[trigger] out[b],
    ) by {
        assert(text_order()(sorted[a], sorted[b]));
    }
    if j - i >= 2 && !is_common_word(word) {
        assert(kept.contains(word));
        assert(sorted.contains(word));
        let m = choose|m: int| 0 <= m < sorted.len() && sorted[m] == word;
        if m < out.len() {
            assert(out[m] == word);
        } else {
            assert forall|n: int| 0 <= n < out.len() implies text_less(#[trigger] out[n], word) by {
                assert(text_order()(sorted[n], sorted[m]));
            }
        }
    }
    assert forall|n: int| 0 <= n < out.len() implies (#[trigger] out[n]).len() >= 2
        && !is_common_word(out[n]) && ascii_lower(out[n]) == out[n] && has_text(
        ascii_lower(prompt),
        out[n],
    ) by {
        let x = out[n];
        assert(sorted[n] == x);
        assert(sorted.contains(x));
        assert(kept.contains(x));
        lemma_filter_contains(all, keywords_class(), x);
        let m = choose|m: int| 0 <= m < all.len() && all[m] == x;
        law_ascii_lower(trimmed(pieces[m]));
        let (a, b) = law_split_piece(prompt, p, m);
        assert forall|k: int| 0 <= k < pieces[m].len() implies is_keyword_char(
            #[trigger] pieces[m][k],
        ) by {
            assert(!p(prompt[a + k]));
        }
        lemma_keyword_trimmed(pieces[m]);
        assert(ascii_lower(prompt).subrange(a, b) =~= ascii_lower(prompt.subrange(a, b)));
        assert(x.len() == b - a);
        assert(occurs_at(ascii_lower(prompt), x, a));
    }
}

proof fn lemma_keyword_trimmed(s: Seq<char>)
    requires
        forall|k: int| 0 <= k < s.len() ==> is_keyword_char(#[trigger] s[k]),
    ensures
        trimmed(s) == s,
{
    if s.len() == 0 {
        let (a, b) = crate::text::lemma_trimmed_where(s, white_space());
        assert(trimmed(s) =~= s);
    } else {
        assert(is_keyword_char(s[0]));
        assert(is_keyword_char(s[s.len() - 1]));
        lemma_keyword_char(s[0]);
        lemma_keyword_char(s[s.len() - 1]);
        crate::text::law_trimmed_keeps(Seq::empty(), s, Seq::empty());
    }
}

proof fn lemma_keyword_char(c: char)
    requires
        is_keyword_char(c),
    ensures
        !is_white_space(c),
{
    vstd::utf8::char_is_scalar(c);
}

/// A pack knows the root of the project, and each path that its prompt, its documents, manifests
/// and rules, git or its relevant files name, and no others.
pub proof fn law_known_paths(pack: ContextPack, path: Seq<char>)
    ensures
        pack.known_paths().contains(path) <==> {
            ||| path == pack.project.repo_root@
            ||| exists|i: int|
                0 <= i < pack.intent.mentioned_paths@.len() && (
                #[trigger] pack.intent.mentioned_paths@[i])@ == path
            ||| exists|i: int|
                0 <= i < pack.project_docs@.len() && (#[trigger] pack.project_docs@[i]).path@
                    == path
            ||| exists|i: int|
                0 <= i < pack.project.manifests@.len() && (
                #[trigger] pack.project.manifests@[i]).path@ == path
            ||| exists|i: int|
                0 <= i < pack.rules@.len() && (#[trigger] pack.rules@[i]).path@ == path
            ||| pack.git matches Some(git) && exists|i: int|
                0 <= i < git.changed_files@.len() && (#[trigger] git.changed_files@[i])@ == path
            ||| exists|i: int|
                0 <= i < pack.relevant_files@.len() && (#[trigger] pack.relevant_files@[i]).path@
                    == path
        },
{
    let a = seq![pack.project.repo_root@];
    let b = texts(pack.intent.mentioned_paths@);
    let c = doc_paths(pack.project_docs@);
    let d = manifest_paths(pack.project.manifests@);
    let e = rule_paths(pack.rules@);
    let f = changed_paths(pack.git);
    let g = file_paths(pack.relevant_files@);
    lemma_contains_either(a, b, path);
    lemma_contains_either(a + b, c, path);
    lemma_contains_either(a + b + c, d, path);
    lemma_contains_either(a + b + c + d, e, path);
    lemma_contains_either(a + b + c + d + e, f, path);
    lemma_contains_either(a + b + c + d + e + f, g, path);
    assert(a.contains(path) <==> a[0] == path);
    assert(b.contains(path) <==> exists|i: int|
        0 <= i < pack.intent.mentioned_paths@.len() && (#[trigger] pack.intent.mentioned_paths@[i])@
            == path) by {
        if b.contains(path) {
            let i = choose|i: int| 0 <= i < b.len() && b[i] == path;
            assert(pack.intent.mentioned_paths@[i]@ == path);
        }
        if exists|i: int|
            0 <= i < pack.intent.mentioned_paths@.len() && (
            #[trigger] pack.intent.mentioned_paths@[i])@ == path {
            let i = choose|i: int|
                0 <= i < pack.intent.mentioned_paths@.len() && (
                #[trigger] pack.intent.mentioned_paths@[i])@ == path;
            assert(b[i] == path);
        }
    }
    assert(c.contains(path) <==> exists|i: int|
        0 <= i < pack.project_docs@.len() && (#[trigger] pack.project_docs@[i]).path@ == path) by {
        if c.contains(path) {
            let i = choose|i: int| 0 <= i < c.len() && c[i] == path;
            assert(pack.project_docs@[i].path@ == path);
        }
        if exists|i: int|
            0 <= i < pack.project_docs@.len() && (#[trigger] pack.project_docs@[i]).path@ == path {
            let i = choose|i: int|
                0 <= i < pack.project_docs@.len() && (#[trigger] pack.project_docs@[i]).path@
                    == path;
            assert(c[i] == path);
        }
    }
    assert(d.contains(path) <==> exists|i: int|
        0 <= i < pack.project.manifests@.len() && (#[trigger] pack.project.manifests@[i]).path@
            == path) by {
        if d.contains(path) {
            let i = choose|i: int| 0 <= i < d.len() && d[i] == path;
            assert(pack.project.manifests@[i].path@ == path);
        }
        if exists|i: int|
            0 <= i < pack.project.manifests@.len() && (#[trigger] pack.project.manifests@[i]).path@
                == path {
            let i = choose|i: int|
                0 <= i < pack.project.manifests@.len() && (
                #[trigger] pack.project.manifests@[i]).path@ == path;
            assert(d[i] == path);
        }
    }
    assert(e.contains(path) <==> exists|i: int|
        0 <= i < pack.rules@.len() && (#[trigger] pack.rules@[i]).path@ == path) by {
        if e.contains(path) {
            let i = choose|i: int| 0 <= i < e.len() && e[i] == path;
            assert(pack.rules@[i].path@ == path);
        }
        if exists|i: int| 0 <= i < pack.rules@.len() && (#[trigger] pack.rules@[i]).path@ == path {
            let i = choose|i: int|
                0 <= i < pack.rules@.len() && (#[trigger] pack.rules@[i]).path@ == path;
            assert(e[i] == path);
        }
    }
    if let Some(git) = pack.git {
        assert(f.contains(path) <==> exists|i: int|
            0 <= i < git.changed_files@.len() && (#[trigger] git.changed_files@[i])@ == path) by {
            if f.contains(path) {
                let i = choose|i: int| 0 <= i < f.len() && f[i] == path;
                assert(git.changed_files@[i]@ == path);
            }
            if exists|i: int|
                0 <= i < git.changed_files@.len() && (#[trigger] git.changed_files@[i])@ == path {
                let i = choose|i: int|
                    0 <= i < git.changed_files@.len() && (#[trigger] git.changed_files@[i])@ == path;
                assert(f[i] == path);
            }
        }
    }
    assert(g.contains(path) <==> exists|i: int|
        0 <= i < pack.relevant_files@.len() && (#[trigger] pack.relevant_files@[i]).path@ == path)
        by {
        if g.contains(path) {
            let i = choose|i: int| 0 <= i < g.len() && g[i] == path;
            assert(pack.relevant_files@[i].path@ == path);
        }
        if exists|i: int|
            0 <= i < pack.relevant_files@.len() && (#[trigger] pack.relevant_files@[i]).path@
                == path {
            let i = choose|i: int|
                0 <= i < pack.relevant_files@.len() && (#[trigger] pack.relevant_files@[i]).path@
                    == path;
            assert(g[i] == path);
        }
    }
}

proof fn lemma_contains_either(a: Seq<Seq<char>>, b: Seq<Seq<char>>, x: Seq<char>)
    ensures
        (a + b).contains(x) <==> a.contains(x) || b.contains(x),
{
    if a.contains(x) {
        let i = choose|i: int| 0 <= i < a.len() && a[i] == x;
        assert((a + b)[i] == x);
    }
    if b.contains(x) {
        let i = choose|i: int| 0 <= i < b.len() && b[i] == x;
        assert((a + b)[a.len() + i] == x);
    }
    if (a + b).contains(x) {
        let i = choose|i: int| 0 <= i < (a + b).len() && (a + b)[i] == x;
        if i < a.len() {
            assert(a[i] == x);
        } else {
            assert(b[i - a.len()] == x);
        }
    }
}

/// The punctuation that can stand around a path.
pub proof fn law_path_edge(c: char)
    ensures
        is_path_edge(c) <==> "`\"',.:;()[]{}<>，。；："@.contains(c),
{
    reveal_strlit("`\"',.:;()[]{}<>，。；：");
    let all = "`\"',.:;()[]{}<>，。；："@;
    assert(all.len() == 19);
    if is_path_edge(c) {
        assert(all[0] == '`' && all[1] == '"' && all[2] == '\'' && all[3] == ',' && all[4] == '.');
        assert(all[5] == ':' && all[6] == ';' && all[7] == '(' && all[8] == ')' && all[9] == '[');
        assert(all[10] == ']' && all[11] == '{' && all[12] == '}' && all[13] == '<');
        assert(all[14] == '>' && all[15] == '，' && all[16] == '。' && all[17] == '；');
        assert(all[18] == '：');
    }
}

/// A name and, after a dot, one of these extensions is taken for a file, and with every other
/// extension it is not.
#[verifier::spinoff_prover]
pub proof fn law_file_names(stem: Seq<char>, ext: Seq<char>)
    requires
        stem.len() > 0,
        ext.len() > 0,
        forall|i: int| 0 <= i < stem.len() ==> #[trigger] stem[i] != '/',
        forall|i: int| 0 <= i < ext.len() ==> #[trigger] ext[i] != '/' && ext[i] != '.',
    ensures
        known_extension(stem + seq!['.'] + ext) <==> seq![
            "go"@,
            "js"@,
            "json"@,
            "jsx"@,
            "md"@,
            "py"@,
            "rs"@,
            "toml"@,
            "ts"@,
            "tsx"@,
            "yaml"@,
            "yml"@,
        ].contains(ext),
{
    reveal_strlit(".");
    reveal_strlit("..");
    let name = stem + seq!['.'] + ext;
    let k = stem.len() as int;
    assert forall|i: int| 0 <= i < name.len() implies #[trigger] name[i] != '/' by {
        if i < k {
            assert(name[i] == stem[i]);
        } else if i > k {
            assert(name[i] == ext[i - k - 1]);
        }
    }
    assert(name.len() >= 3);
    crate::paths::law_name(Seq::empty(), name);
    assert(Seq::<char>::empty() + name =~= name);
    crate::text::lemma_last_index(name, '.');
    let at = crate::text::last_index(name, '.');
    assert(name[k] == '.');
    if at > k {
        assert(name[at] == ext[at - k - 1]);
    }
    assert(at == k);
    assert(name.skip(k + 1) =~= ext);
    let all = seq![
        "go"@,
        "js"@,
        "json"@,
        "jsx"@,
        "md"@,
        "py"@,
        "rs"@,
        "toml"@,
        "ts"@,
        "tsx"@,
        "yaml"@,
        "yml"@,
    ];
    assert(all[0] == "go"@ && all[1] == "js"@ && all[2] == "json"@ && all[3] == "jsx"@);
    assert(all[4] == "md"@ && all[5] == "py"@ && all[6] == "rs"@ && all[7] == "toml"@);
    assert(all[8] == "ts"@ && all[9] == "tsx"@ && all[10] == "yaml"@ && all[11] == "yml"@);
}

/// The words that are too common for a keyword.
pub proof fn law_common_words(word: Seq<char>)
    ensures
        is_common_word(word) <==> seq![
            "and"@,
            "for"@,
            "from"@,
            "into"@,
            "please"@,
            "should"@,
            "that"@,
            "the"@,
            "this"@,
            "with"@,
            "一下"@,
            "帮我"@,
            "我们"@,
            "现在"@,
            "这个"@,
        ].contains(word),
{
    let all = seq![
        "and"@,
        "for"@,
        "from"@,
        "into"@,
        "please"@,
        "should"@,
        "that"@,
        "the"@,
        "this"@,
        "with"@,
        "一下"@,
        "帮我"@,
        "我们"@,
        "现在"@,
        "这个"@,
    ];
    assert(all[0] == "and"@ && all[1] == "for"@ && all[2] == "from"@ && all[3] == "into"@);
    assert(all[4] == "please"@ && all[5] == "should"@ && all[6] == "that"@ && all[7] == "the"@);
    assert(all[8] == "this"@ && all[9] == "with"@ && all[10] == "一下"@ && all[11] == "帮我"@);
    assert(all[12] == "我们"@ && all[13] == "现在"@ && all[14] == "这个"@);
}

/// The characters of keywords.
pub proof fn law_keyword_chars(c: char)
    ensures
        is_keyword_char(c) <==> ('a' <= c <= 'z' || 'A' <= c <= 'Z' || '0' <= c <= '9' || c == '_' || c
            == '-' || 0x4E00 <= c as int <= 0x9FFF),
{
    vstd::utf8::char_is_scalar(c);
}

/// A sentence that speaks of what must, must not or may only be done states a constraint, whatever
/// stands around that word and however it is capitalised.
#[verifier::spinoff_prover]
pub proof fn law_constraint_words(before: Seq<char>, word: Seq<char>, after: Seq<char>)
    requires
        seq!["必须"@, "不要"@, "不能"@, "只"@].contains(word) || seq![
            "must"@,
            "do not"@,
            "don't"@,
            "never"@,
            "only"@,
            "should not"@,
        ].contains(ascii_lower(word)),
    ensures
        is_constraint(before + word + after),
{
    reveal_strlit("必须");
    reveal_strlit("不要");
    reveal_strlit("不能");
    reveal_strlit("只");
    reveal_strlit("must");
    reveal_strlit("do not");
    reveal_strlit("don't");
    reveal_strlit("never");
    reveal_strlit("only");
    reveal_strlit("should not");
    let all = before + word + after;
    assert(ascii_lower(word).len() == word.len());
    assert(word.len() > 0);
    crate::text::lemma_has_middle(before, word, after);
    crate::text::lemma_has_middle(ascii_lower(before), ascii_lower(word), ascii_lower(after));
    assert(ascii_lower(all) =~= ascii_lower(before) + ascii_lower(word) + ascii_lower(after));
}

/// Whether a sentence holds the word `w` of what must, must not or may only be done.
pub open spec fn holds_word(part: Seq<char>, w: Seq<char>) -> bool {
    ||| seq!["必须"@, "不要"@, "不能"@, "只"@].contains(w) && has_text(part, w)
    ||| seq!["must"@, "do not"@, "don't"@, "never"@, "only"@, "should not"@].contains(w)
        && has_text(ascii_lower(part), w)
}

/// A sentence states a constraint only where it holds a word of what must, must not or may only be
/// done.
#[verifier::spinoff_prover]
pub proof fn law_constraints_hold_a_word(part: Seq<char>)
    requires
        is_constraint(part),
    ensures
        exists|w: Seq<char>| #[trigger] holds_word(part, w),
{
    let chinese = seq!["必须"@, "不要"@, "不能"@, "只"@];
    let english = seq!["must"@, "do not"@, "don't"@, "never"@, "only"@, "should not"@];
    let lower = ascii_lower(part);
    assert(chinese[0] == "必须"@ && chinese[1] == "不要"@ && chinese[2] == "不能"@ && chinese[3]
        == "只"@);
    assert(english[0] == "must"@ && english[1] == "do not"@ && english[2] == "don't"@ && english[3]
        == "never"@ && english[4] == "only"@ && english[5] == "should not"@);
    if has_text(part, "必须"@) || has_text(part, "不要"@) || has_text(part, "不能"@) || has_text(
        part,
        "只"@,
    ) {
        let w = if has_text(part, "必须"@) {
            "必须"@
        } else if has_text(part, "不要"@) {
            "不要"@
        } else if has_text(part, "不能"@) {
            "不能"@
        } else {
            "只"@
        };
        assert(holds_word(part, w));
    } else {
        let w = if has_text(lower, "must"@) {
            "must"@
        } else if has_text(lower, "do not"@) {
            "do not"@
        } else if has_text(lower, "don't"@) {
            "don't"@
        } else if has_text(lower, "never"@) {
            "never"@
        } else if has_text(lower, "only"@) {
            "only"@
        } else {
            "should not"@
        };
        assert(holds_word(part, w));
    }
}

/// An absolute path below the root of the project is what leads to it from there, and every other
/// path is left as it is.
pub proof fn law_repo_path(path: Seq<char>, repo_root: Seq<char>, rest: Seq<char>)
    ensures
        !is_absolute_path(path) ==> repo_path(path, repo_root) == path,
        is_absolute_path(path) && same_path(
            path,
            crate::paths::joined_path(repo_root, rest),
        ) && repo_root.len() > 0 && crate::paths::components(rest).len() > 0
            && crate::paths::components(rest)[0] is Name ==> same_path(
            repo_path(path, repo_root),
            rest,
        ),
        !(crate::paths::components(repo_root).is_prefix_of(crate::paths::components(path)))
            ==> repo_path(path, repo_root) == path,
{
    let all = crate::paths::components(path);
    let a = crate::paths::components(repo_root);
    let b = crate::paths::components(rest);
    crate::paths::law_without_base(path, repo_root);
    if is_absolute_path(path) && same_path(path, crate::paths::joined_path(repo_root, rest))
        && repo_root.len() > 0 && b.len() > 0 && b[0] is Name {
        if is_absolute_path(rest) {
            assert(b[0] == crate::paths::Part::Root);
        }
        crate::paths::law_joined_path(repo_root, rest);
        assert(all == a + b);
        let c = crate::paths::components(
            crate::paths::without_base(path, repo_root)->Some_0,
        );
        assert((a + b).skip(a.len() as int) =~= b);
        assert((a + c).skip(a.len() as int) =~= c);
    }
    if !a.is_prefix_of(all) && crate::paths::without_base(path, repo_root) is Some {
        assert(all.take(a.len() as int) == a);
    }
}

} // verus!
