//! The context pack of a prompt, put together from what was read of the project.
use vstd::prelude::*;
use crate::bytes::{byte_count, byte_len};
use crate::context_pack::{
    keywords_of, hard_constraints_of, language_of, mentioned_paths_of, repo_path, BudgetUsage,
    ContextPack, ContextWarning, GitBlock, IntentBlock, ProjectDocBlock, RelevantFileBlock, RuleBlock,
};
use crate::paths::relative_to;
use crate::providers::{
    block_says, collect_agent_rules, collect_git_block, collect_project_block, collect_project_docs,
    doc_names, doc_text, doc_views, docs_upto, facts_upto, git_block_says, is_doc, law_docs,
    relative_paths, rule_views, Doc, GitWorktreeSummary, MAX_PROJECT_DOC_BYTES, MAX_RULE_BYTES,
};
use crate::relevant_files::{contents_view, file_views, RelevantFile};
use crate::retriever::{
    best_files, found_at, gathered, is_excluded, is_kept, law_mention_warnings, law_prompt_files,
    match_count, mention_warnings, prompt_hits, retrieve_relevant_files, search_terms, warning_texts,
    FileMatch, MAX_HITS,
};
use crate::text::texts;

verus! {

/// What was read of a project.
pub struct ProjectReads {
    pub repo_root: String,
    /// What each document holds, where it could be read.
    pub docs: Vec<Option<Vec<u8>>>,
    /// The files with rules for agents.
    pub rule_sources: Vec<String>,
    /// What each file with rules holds, where it could be read.
    pub rules: Vec<Option<Vec<u8>>>,
    /// What each manifest holds, where it could be read.
    pub manifests: Vec<Option<Vec<u8>>>,
    pub git: Option<GitWorktreeSummary>,
}

impl ProjectReads {
    /// There is an answer for each file that is read.
    pub open spec fn wf(self) -> bool {
        &&& self.docs@.len() == 3
        &&& self.rules@.len() == self.rule_sources@.len()
        &&& self.manifests@.len() == 4
    }

    /// The documents.
    pub open spec fn doc_models(self) -> Seq<Doc> {
        docs_upto(doc_names(), contents_view(self.docs@), MAX_PROJECT_DOC_BYTES as int, 3)
    }

    /// The files with rules.
    pub open spec fn rule_models(self) -> Seq<Doc> {
        docs_upto(
            relative_paths(texts(self.rule_sources@), self.repo_root@),
            contents_view(self.rules@),
            MAX_RULE_BYTES as int,
            self.rule_sources@.len() as int,
        )
    }

    /// The files that git reports as changed.
    pub open spec fn changed(self) -> Seq<Seq<char>> {
        match self.git {
            Some(git) => texts(git.changed_files@),
            None => Seq::empty(),
        }
    }
}

/// What was looked up for the files of a prompt.
pub struct FileLookups {
    /// Whether each path that the prompt mentions exists.
    pub exist: Vec<bool>,
    /// The matches of each search term.
    pub searches: Vec<Vec<FileMatch>>,
}

/// What is searched for, for a prompt.
pub open spec fn prompt_terms(prompt: Seq<char>, repo_root: Seq<char>) -> Seq<Seq<char>> {
    search_terms(mentioned_paths_of(prompt, repo_root), keywords_of(prompt))
}

impl FileLookups {
    /// There is an answer for each path and each term, and not too many of them.
    pub open spec fn wf(self, prompt: Seq<char>, reads: ProjectReads) -> bool {
        &&& self.exist@.len() == mentioned_paths_of(prompt, reads.repo_root@).len()
        &&& self.searches@.len() == prompt_terms(prompt, reads.repo_root@).len()
        &&& self.exist@.len() + match_count(self.searches@) + reads.changed().len() <= MAX_HITS
    }

    /// The files that may matter for the prompt.
    pub open spec fn files(self, prompt: Seq<char>, reads: ProjectReads) -> Seq<RelevantFile> {
        best_files(
            gathered(
                prompt_hits(
                    reads.repo_root@,
                    mentioned_paths_of(prompt, reads.repo_root@),
                    self.exist@,
                    reads.changed(),
                    prompt_terms(prompt, reads.repo_root@),
                    self.searches@,
                ),
            ),
            "deterministic candidate"@,
        )
    }

    /// The warnings about mentioned paths.
    pub open spec fn warnings(self, prompt: Seq<char>, repo_root: Seq<char>) -> Seq<Seq<char>> {
        mention_warnings(
            repo_root,
            mentioned_paths_of(prompt, repo_root),
            self.exist@,
            self.exist@.len() as int,
        )
    }
}

/// The warning about each document that was cut.
pub open spec fn cut_warnings(docs: Seq<Doc>, heading: Seq<char>) -> Seq<Seq<char>>
    decreases docs.len(),
{
    if docs.len() == 0 {
        Seq::empty()
    } else {
        let before = cut_warnings(docs.drop_last(), heading);
        if docs.last().truncated {
            before.push(heading + docs.last().path + "` was truncated."@)
        } else {
            before
        }
    }
}

/// The bytes of all documents together.
pub open spec fn total_bytes(docs: Seq<Doc>) -> nat
    decreases docs.len(),
{
    if docs.len() == 0 {
        0
    } else {
        total_bytes(docs.drop_last()) + byte_count(docs.last().content)
    }
}

/// A number of bytes, or the largest number that can be counted to.
pub open spec fn counted(bytes: nat) -> int {
    if bytes <= usize::MAX {
        bytes as int
    } else {
        usize::MAX as int
    }
}

/// The bytes of what is kept of git.
pub open spec fn git_bytes(git: Option<GitBlock>) -> nat {
    match git {
        Some(git) => byte_count(git.status_short@) + match git.diff_stat {
            Some(text) => byte_count(text@),
            None => 0,
        },
        None => 0,
    }
}

/// What a context pack says of its prompt.
pub open spec fn intent_says(intent: IntentBlock, prompt: Seq<char>, repo_root: Seq<char>) -> bool {
    &&& intent.original_prompt@ == prompt
    &&& intent.language@ == language_of(prompt)
    &&& texts(intent.hard_constraints@) == hard_constraints_of(prompt)
    &&& texts(intent.mentioned_paths@) == mentioned_paths_of(prompt, repo_root)
    &&& texts(intent.keywords@) == keywords_of(prompt)
}

/// Whether a context pack holds what was read of the project, with these files and warnings.
pub open spec fn pack_says(
    pack: ContextPack,
    prompt: Seq<char>,
    reads: ProjectReads,
    files: Seq<RelevantFile>,
    warnings: Seq<Seq<char>>,
) -> bool {
    &&& intent_says(pack.intent, prompt, reads.repo_root@)
    &&& block_says(pack.project, reads.repo_root@, facts_upto(contents_view(reads.manifests@), 4))
    &&& doc_views(pack.project_docs@) == reads.doc_models()
    &&& rule_views(pack.rules@) == reads.rule_models()
    &&& pack.git is Some <==> reads.git is Some
    &&& pack.git matches Some(git) ==> git_block_says(git, reads.git->Some_0)
    &&& file_views(pack.relevant_files@) == files
    &&& warning_texts(pack.warnings@) == warnings + cut_warnings(
        reads.doc_models(),
        "Project doc `"@,
    ) + cut_warnings(reads.rule_models(), "Project rule `"@)
    &&& pack.budget.project_doc_bytes == counted(total_bytes(reads.doc_models()))
    &&& pack.budget.rule_bytes == counted(total_bytes(reads.rule_models()))
    &&& pack.budget.git_bytes == counted(git_bytes(pack.git))
    &&& pack.budget.relevant_file_count == files.len()
}

fn push_cut_warning(warnings: &mut Vec<ContextWarning>, heading: &str, path: &str)
    ensures
        warning_texts(final(warnings)@) == warning_texts(old(warnings)@).push(
            heading@ + path@ + "` was truncated."@,
        ),
{
    let ghost before = warnings@;
    let mut message = heading.to_owned();
    message.append(path);
    message.append("` was truncated.");
    warnings.push(ContextWarning { message });
    proof {
        assert(warning_texts(warnings@) =~= warning_texts(before).push(message@));
    }
}

fn add_doc_warnings(warnings: &mut Vec<ContextWarning>, docs: &Vec<ProjectDocBlock>) -> (bytes:
    usize)
    ensures
        warning_texts(final(warnings)@) == warning_texts(old(warnings)@) + cut_warnings(
            doc_views(docs@),
            "Project doc `"@,
        ),
        bytes == counted(total_bytes(doc_views(docs@))),
{
    let ghost before = warning_texts(warnings@);
    let ghost all = doc_views(docs@);
    let mut bytes: usize = 0;
    let mut i: usize = 0;
    proof {
        assert(all.take(0) =~= Seq::<Doc>::empty());
        assert(before + cut_warnings(all.take(0), "Project doc `"@) =~= before);
    }
    while i < docs.len()
        invariant
            i <= docs@.len(),
            all == doc_views(docs@),
            bytes == counted(total_bytes(all.take(i as int))),
            warning_texts(warnings@) == before + cut_warnings(
                all.take(i as int),
                "Project doc `"@,
            ),
        decreases docs@.len() - i,
    {
        proof {
            let next = all.take(i + 1);
            assert(next.drop_last() =~= all.take(i as int));
            assert(next.last() == all[i as int]);
        }
        bytes = bytes.saturating_add(byte_len(docs[i].content.as_str()));
        if docs[i].truncated {
            push_cut_warning(warnings, "Project doc `", docs[i].path.as_str());
            proof {
                let found = cut_warnings(all.take(i as int), "Project doc `"@);
                let x = "Project doc `"@ + docs@[i as int].path@ + "` was truncated."@;
                assert((before + found).push(x) =~= before + found.push(x));
            }
        }
        i += 1;
    }
    proof {
        assert(all.take(docs@.len() as int) =~= all);
    }
    bytes
}

fn add_rule_warnings(warnings: &mut Vec<ContextWarning>, rules: &Vec<RuleBlock>) -> (bytes: usize)
    ensures
        warning_texts(final(warnings)@) == warning_texts(old(warnings)@) + cut_warnings(
            rule_views(rules@),
            "Project rule `"@,
        ),
        bytes == counted(total_bytes(rule_views(rules@))),
{
    let ghost before = warning_texts(warnings@);
    let ghost all = rule_views(rules@);
    let mut bytes: usize = 0;
    let mut i: usize = 0;
    proof {
        assert(all.take(0) =~= Seq::<Doc>::empty());
        assert(before + cut_warnings(all.take(0), "Project rule `"@) =~= before);
    }
    while i < rules.len()
        invariant
            i <= rules@.len(),
            all == rule_views(rules@),
            bytes == counted(total_bytes(all.take(i as int))),
            warning_texts(warnings@) == before + cut_warnings(
                all.take(i as int),
                "Project rule `"@,
            ),
        decreases rules@.len() - i,
    {
        proof {
            let next = all.take(i + 1);
            assert(next.drop_last() =~= all.take(i as int));
            assert(next.last() == all[i as int]);
        }
        bytes = bytes.saturating_add(byte_len(rules[i].summary_or_content.as_str()));
        if rules[i].truncated {
            push_cut_warning(warnings, "Project rule `", rules[i].path.as_str());
            proof {
                let found = cut_warnings(all.take(i as int), "Project rule `"@);
                let x = "Project rule `"@ + rules@[i as int].path@ + "` was truncated."@;
                assert((before + found).push(x) =~= before + found.push(x));
            }
        }
        i += 1;
    }
    proof {
        assert(all.take(rules@.len() as int) =~= all);
    }
    bytes
}

fn bytes_of_git(git: &Option<GitBlock>) -> (r: usize)
    ensures
        r == counted(git_bytes(*git)),
{
    match git {
        Some(git) => {
            let status: usize = byte_len(git.status_short.as_str());
            match &git.diff_stat {
                Some(text) => status.saturating_add(byte_len(text.as_str())),
                None => status,
            }
        },
        None => 0,
    }
}

fn assemble(
    intent: IntentBlock,
    reads: ProjectReads,
    git: Option<GitBlock>,
    relevant_files: Vec<RelevantFileBlock>,
    warnings: Vec<ContextWarning>,
    Ghost(summary): Ghost<Option<GitWorktreeSummary>>,
) -> (pack: ContextPack)
    requires
        reads.wf(),
        intent_says(intent, intent.original_prompt@, reads.repo_root@),
        git is Some <==> summary is Some,
        git matches Some(block) ==> git_block_says(block, summary->Some_0),
    ensures
        pack_says(
            pack,
            intent.original_prompt@,
            (ProjectReads { git: summary, ..reads }),
            file_views(relevant_files@),
            warning_texts(warnings@),
        ),
{
    let project_docs = collect_project_docs(&reads.docs);
    let rules = collect_agent_rules(reads.repo_root.as_str(), &reads.rule_sources, &reads.rules);
    let project = collect_project_block(reads.repo_root.as_str(), &reads.manifests);
    let mut warnings = warnings;
    let project_doc_bytes: usize = add_doc_warnings(&mut warnings, &project_docs);
    let rule_bytes: usize = add_rule_warnings(&mut warnings, &rules);
    let budget = BudgetUsage {
        project_doc_bytes,
        rule_bytes,
        git_bytes: bytes_of_git(&git),
        relevant_file_count: relevant_files.len(),
    };
    ContextPack { intent, project, project_docs, rules, git, relevant_files, warnings, budget }
}

/// The context pack of a prompt with the files that may matter for it.
pub fn collect_context_pack(
    original_prompt: &str,
    reads: ProjectReads,
    lookups: &FileLookups,
) -> (pack: ContextPack)
    requires
        reads.wf(),
        lookups.wf(original_prompt@, reads),
    ensures
        pack_says(
            pack,
            original_prompt@,
            reads,
            lookups.files(original_prompt@, reads),
            lookups.warnings(original_prompt@, reads.repo_root@),
        ),
{
    let ghost whole = reads;
    let ghost summary = reads.git;
    let intent = IntentBlock::from_prompt(original_prompt, reads.repo_root.as_str());
    let mut reads = reads;
    let mut taken: Option<GitWorktreeSummary> = None;
    std::mem::swap(&mut taken, &mut reads.git);
    let git = collect_git_block(taken);
    proof {
        assert(texts(intent.mentioned_paths@).len() == intent.mentioned_paths@.len());
        if git is Some {
            let changed = git->Some_0.changed_files@;
            assert(texts(changed).len() == changed.len());
        }
    }
    let (relevant_files, warnings) = retrieve_relevant_files(
        reads.repo_root.as_str(),
        &intent,
        &lookups.exist,
        git.as_ref(),
        &lookups.searches,
    );
    let pack = assemble(intent, reads, git, relevant_files, warnings, Ghost(summary));
    proof {
        assert(ProjectReads { git: summary, ..reads } == whole);
    }
    pack
}

/// The context pack of a prompt without any files yet.
pub fn collect_bootstrap_context_pack(original_prompt: &str, reads: ProjectReads) -> (pack:
    ContextPack)
    requires
        reads.wf(),
    ensures
        pack_says(pack, original_prompt@, reads, Seq::empty(), Seq::empty()),
{
    let ghost whole = reads;
    let ghost summary = reads.git;
    let intent = IntentBlock::from_prompt(original_prompt, reads.repo_root.as_str());
    let mut reads = reads;
    let mut taken: Option<GitWorktreeSummary> = None;
    std::mem::swap(&mut taken, &mut reads.git);
    let git = collect_git_block(taken);
    let files: Vec<RelevantFileBlock> = Vec::new();
    let warnings: Vec<ContextWarning> = Vec::new();
    proof {
        assert(file_views(files@) =~= Seq::<RelevantFile>::empty());
        assert(warning_texts(warnings@) =~= Seq::<Seq<char>>::empty());
    }
    let pack = assemble(intent, reads, git, files, warnings, Ghost(summary));
    proof {
        assert(ProjectReads { git: summary, ..reads } == whole);
    }
    pack
}

/// Where the project of a context pack lies.
pub fn context_pack_repo_root(context_pack: &ContextPack) -> (r: &str)
    ensures
        r@ == context_pack.project.repo_root@,
{
    context_pack.project.repo_root.as_str()
}

/// The warnings about documents that were cut: one for each, in order, with its path, and none for
/// any other.
pub proof fn law_cut_warnings(docs: Seq<Doc>, heading: Seq<char>)
    ensures
        forall|i: int|
            0 <= i < docs.len() && (#[trigger] docs[i]).truncated ==> cut_warnings(
                docs,
                heading,
            ).contains(heading + docs[i].path + "` was truncated."@),
        forall|w: Seq<char>| #[trigger]
            cut_warnings(docs, heading).contains(w) ==> exists|i: int|
                0 <= i < docs.len() && (#[trigger] docs[i]).truncated && w == heading + docs[i].path
                    + "` was truncated."@,
        docs.len() > 0 ==> cut_warnings(docs, heading).len() == cut_warnings(
            docs.drop_last(),
            heading,
        ).len() + (if docs.last().truncated {
            1int
        } else {
            0
        }),
    decreases docs.len(),
{
    if docs.len() > 0 {
        let init = docs.drop_last();
        let before = cut_warnings(init, heading);
        let after = cut_warnings(docs, heading);
        law_cut_warnings(init, heading);
        assert forall|i: int| 0 <= i < docs.len() && (#[trigger] docs[i]).truncated implies after.contains(
            heading + docs[i].path + "` was truncated."@,
        ) by {
            let w = heading + docs[i].path + "` was truncated."@;
            if i < init.len() {
                assert(init[i] == docs[i]);
                let k = choose|k: int| 0 <= k < before.len() && before[k] == w;
                assert(after[k] == w);
            } else {
                assert(after[before.len() as int] == w);
            }
        }
        assert forall|w: Seq<char>| #[trigger] after.contains(w) implies exists|i: int|
            0 <= i < docs.len() && (#[trigger] docs[i]).truncated && w == heading + docs[i].path
                + "` was truncated."@ by {
            let k = choose|k: int| 0 <= k < after.len() && after[k] == w;
            if k < before.len() {
                assert(before[k] == w);
                assert(before.contains(w));
                let i = choose|i: int|
                    0 <= i < init.len() && (#[trigger] init[i]).truncated && w == heading
                        + init[i].path + "` was truncated."@;
                assert(docs[i] == init[i]);
            } else {
                assert(docs[docs.len() - 1].truncated);
            }
        }
    }
}

/// A context pack tells each warning it is given, and of each document and file of rules that was
/// cut that it was. Its budget counts the bytes that it holds of documents, of rules and of git,
/// and its files.
pub proof fn law_pack(
    pack: ContextPack,
    prompt: Seq<char>,
    reads: ProjectReads,
    files: Seq<RelevantFile>,
    warnings: Seq<Seq<char>>,
)
    requires
        pack_says(pack, prompt, reads, files, warnings),
    ensures
        pack.intent.original_prompt@ == prompt,
        pack.project.repo_root@ == reads.repo_root@,
        pack.relevant_files@.len() == files.len(),
        pack.budget.relevant_file_count == pack.relevant_files@.len(),
        forall|i: int|
            0 <= i < files.len() ==> (#[trigger] pack.relevant_files@[i]).path@ == files[i].path
                && pack.relevant_files@[i].confidence == files[i].confidence,
        pack.git matches Some(git) ==> reads.git is Some && git.branch == reads.git->Some_0.branch
            && git.changed_files == reads.git->Some_0.changed_files && git.has_changes
            == reads.git->Some_0.has_changes,
        reads.git is Some ==> pack.git is Some,
        pack.git is None ==> pack.budget.git_bytes == 0,
        pack.git matches Some(git) ==> ({
            let bytes = byte_count(git.status_short@) + match git.diff_stat {
                Some(text) => byte_count(text@),
                None => 0,
            };
            bytes <= usize::MAX ==> pack.budget.git_bytes == bytes
        }),
        forall|i: int|
            0 <= i < warnings.len() ==> i < pack.warnings@.len() && (
            #[trigger] pack.warnings@[i]).message@ == warnings[i],
        forall|i: int|
            0 <= i < pack.project_docs@.len() && (#[trigger] pack.project_docs@[i]).truncated
                ==> warns(
                pack,
                "Project doc `"@ + pack.project_docs@[i].path@ + "` was truncated."@,
            ),
        forall|i: int|
            0 <= i < pack.rules@.len() && (#[trigger] pack.rules@[i]).truncated ==> warns(
                pack,
                "Project rule `"@ + pack.rules@[i].path@ + "` was truncated."@,
            ),
{
    let docs = doc_views(pack.project_docs@);
    let rules = rule_views(pack.rules@);
    let all = warning_texts(pack.warnings@);
    let a = cut_warnings(docs, "Project doc `"@);
    let b = cut_warnings(rules, "Project rule `"@);
    law_cut_warnings(docs, "Project doc `"@);
    law_cut_warnings(rules, "Project rule `"@);
    assert(file_views(pack.relevant_files@).len() == pack.relevant_files@.len());
    assert(all.len() == pack.warnings@.len());
    assert forall|i: int| 0 <= i < files.len() implies (#[trigger] pack.relevant_files@[i]).path@
        == files[i].path && pack.relevant_files@[i].confidence == files[i].confidence by {
        assert(file_views(pack.relevant_files@)[i] == files[i]);
    }
    assert forall|i: int| 0 <= i < warnings.len() implies i < pack.warnings@.len() && (
    #[trigger] pack.warnings@[i]).message@ == warnings[i] by {
        assert(all[i] == warnings[i]);
    }
    assert forall|i: int|
        0 <= i < pack.project_docs@.len() && (
        #[trigger] pack.project_docs@[i]).truncated implies warns(
        pack,
        "Project doc `"@ + pack.project_docs@[i].path@ + "` was truncated."@,
    ) by {
        let w = "Project doc `"@ + pack.project_docs@[i].path@ + "` was truncated."@;
        assert(docs[i].truncated);
        let k = choose|k: int| 0 <= k < a.len() && a[k] == w;
        assert(all[warnings.len() + k] == w);
        assert(pack.warnings@[warnings.len() + k].message@ == w);
    }
    assert forall|i: int|
        0 <= i < pack.rules@.len() && (#[trigger] pack.rules@[i]).truncated implies warns(
        pack,
        "Project rule `"@ + pack.rules@[i].path@ + "` was truncated."@,
    ) by {
        let w = "Project rule `"@ + pack.rules@[i].path@ + "` was truncated."@;
        assert(rules[i].truncated);
        let k = choose|k: int| 0 <= k < b.len() && b[k] == w;
        assert(all[warnings.len() + a.len() + k] == w);
        assert(pack.warnings@[warnings.len() + a.len() + k].message@ == w);
    }
}

/// Whether a pack holds a warning with this message.
pub open spec fn warns(pack: ContextPack, message: Seq<char>) -> bool {
    exists|i: int| 0 <= i < pack.warnings@.len() && (#[trigger] pack.warnings@[i]).message@ == message
}

/// What a pack takes of its documents: all of their bytes, one document more taking its own bytes
/// more.
pub proof fn law_total_bytes(docs: Seq<Doc>, doc: Doc)
    ensures
        total_bytes(Seq::empty()) == 0,
        total_bytes(docs.push(doc)) == total_bytes(docs) + byte_count(doc.content),
{
    assert(docs.push(doc).drop_last() =~= docs);
}

/// Whether a document of this path, with this text, is among the documents.
pub open spec fn holds_doc(docs: Seq<Doc>, path: Seq<char>, bytes: Seq<u8>, limit: int) -> bool {
    docs.contains(
        Doc { path, content: doc_text(bytes, limit), truncated: bytes.len() > limit },
    )
}

proof fn lemma_docs_held(reads: ProjectReads, i: int)
    requires
        reads.wf(),
    ensures
        0 <= i < 3 && is_doc(contents_view(reads.docs@)[i], 6000) ==> holds_doc(
            reads.doc_models(),
            seq!["README.md"@, "README"@, "docs/README.md"@][i],
            contents_view(reads.docs@)[i]->Some_0,
            6000,
        ),
{
    law_docs(doc_names(), contents_view(reads.docs@), 6000, 3);
}

proof fn lemma_rules_held(reads: ProjectReads, i: int)
    requires
        reads.wf(),
    ensures
        0 <= i < reads.rule_sources@.len() && is_doc(contents_view(reads.rules@)[i], 8000)
            ==> holds_doc(
            reads.rule_models(),
            relative_to(reads.rule_sources@[i]@, reads.repo_root@),
            contents_view(reads.rules@)[i]->Some_0,
            8000,
        ),
{
    let paths = relative_paths(texts(reads.rule_sources@), reads.repo_root@);
    law_docs(paths, contents_view(reads.rules@), 8000, paths.len() as int);
    if 0 <= i < reads.rule_sources@.len() {
        assert(texts(reads.rule_sources@)[i] == reads.rule_sources@[i]@);
        assert(paths[i] == relative_to(reads.rule_sources@[i]@, reads.repo_root@));
    }
}

/// A pack holds what was read of the project: each document, up to six thousand bytes, and each
/// file of rules, up to eight thousand, that could be read, is a text and is not blank.
pub proof fn law_pack_holds_what_was_read(
    pack: ContextPack,
    prompt: Seq<char>,
    reads: ProjectReads,
    files: Seq<RelevantFile>,
    warnings: Seq<Seq<char>>,
    i: int,
)
    requires
        reads.wf(),
        pack_says(pack, prompt, reads, files, warnings),
    ensures
        0 <= i < 3 && is_doc(contents_view(reads.docs@)[i], 6000) ==> holds_doc(
            doc_views(pack.project_docs@),
            seq!["README.md"@, "README"@, "docs/README.md"@][i],
            contents_view(reads.docs@)[i]->Some_0,
            6000,
        ),
        0 <= i < reads.rule_sources@.len() && is_doc(contents_view(reads.rules@)[i], 8000)
            ==> holds_doc(
            rule_views(pack.rules@),
            relative_to(reads.rule_sources@[i]@, reads.repo_root@),
            contents_view(reads.rules@)[i]->Some_0,
            8000,
        ),
{
    lemma_docs_held(reads, i);
    lemma_rules_held(reads, i);
}

/// A pack tells what its prompt says, and how many bytes its documents and rules take up.
pub proof fn law_pack_counts(
    pack: ContextPack,
    prompt: Seq<char>,
    reads: ProjectReads,
    files: Seq<RelevantFile>,
    warnings: Seq<Seq<char>>,
    i: int,
)
    requires
        pack_says(pack, prompt, reads, files, warnings),
    ensures
        pack.intent.language@ == language_of(prompt),
        texts(pack.intent.hard_constraints@) == hard_constraints_of(prompt),
        texts(pack.intent.mentioned_paths@) == mentioned_paths_of(prompt, reads.repo_root@),
        texts(pack.intent.keywords@) == keywords_of(prompt),
        total_bytes(doc_views(pack.project_docs@)) <= usize::MAX ==> pack.budget.project_doc_bytes
            == total_bytes(doc_views(pack.project_docs@)),
        total_bytes(rule_views(pack.rules@)) <= usize::MAX ==> pack.budget.rule_bytes
            == total_bytes(rule_views(pack.rules@)),
        0 <= i < files.len() ==> pack.relevant_files@[i].reason@ == files[i].reason && texts(
            pack.relevant_files@[i].evidence@,
        ) == files[i].evidence,
{
    if 0 <= i < files.len() {
        assert(file_views(pack.relevant_files@)[i] == files[i]);
    }
}

/// The files that a pack names come from what the prompt mentions, from what git says was changed,
/// and from what the search for the terms of the prompt found; a path that the prompt mentions and
/// that is not there is warned of.
pub proof fn law_findings(
    lookups: FileLookups,
    prompt: Seq<char>,
    reads: ProjectReads,
    i: int,
    path: Seq<char>,
)
    requires
        lookups.wf(prompt, reads),
        0 <= i,
    ensures
        ({
            let root = reads.repo_root@;
            let mentioned = mentioned_paths_of(prompt, root);
            let kept = lookups.files(prompt, reads);
            &&& i < mentioned.len() && lookups.exist@[i] && !is_excluded(
                repo_path(mentioned[i], root),
            ) ==> is_kept(
                kept,
                repo_path(mentioned[i], root),
                100,
                "explicitly mentioned by the user"@,
            )
            &&& reads.git matches Some(git) ==> (i < git.changed_files@.len() && !is_excluded(
                repo_path(git.changed_files@[i]@, root),
            ) ==> is_kept(
                kept,
                repo_path(git.changed_files@[i]@, root),
                40,
                "changed in the current git worktree"@,
            ))
            &&& i < lookups.searches@.len() && found_at(root, lookups.searches@[i]@, path)
                ==> is_kept(
                kept,
                path,
                20,
                "file-search match for `"@ + search_terms(mentioned, keywords_of(prompt))[i] + "`"@,
            )
            &&& (forall|k: int| 0 <= k < lookups.exist@.len() ==> #[trigger] lookups.exist@[k])
                ==> lookups.warnings(prompt, root).len() == 0
        }),
{
    let root = reads.repo_root@;
    let mentioned = mentioned_paths_of(prompt, root);
    let terms = prompt_terms(prompt, root);
    law_prompt_files(
        root,
        mentioned,
        lookups.exist@,
        reads.changed(),
        terms,
        lookups.searches@,
        "deterministic candidate"@,
    );
    law_mention_warnings(root, mentioned, lookups.exist@, lookups.exist@.len() as int);
    if reads.git is Some && i < reads.changed().len() {
        assert(reads.changed()[i] == reads.git->Some_0.changed_files@[i]@);
    }
}

} // verus!
