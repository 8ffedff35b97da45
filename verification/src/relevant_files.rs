//! The files that may matter for a prompt, gathered from several sources.
use vstd::prelude::*;
use crate::context_pack::RelevantFileBlock;
use crate::limited_text::{content_of, is_text, limited_text};
use crate::paths::{
    components, is_absolute, is_absolute_path, join_path, joined_path, lemma_path_place,
    lemma_path_place_is, part_views, path_parts, path_place, paths_equal, relative_path,
    relative_to, same_path, Part, PathPart,
};
use crate::text::{
    law_trimmed_where, lemma_texts_push, list_contains, texts, trim_where, trimmed_where,
};

verus! {

/// How many bytes of a file are read as a snippet.
pub const MAX_ACE_SNIPPET_BYTES: usize = 2_000;

/// The model of a [`RelevantFileBlock`].
#[verifier::ext_equal]
pub struct RelevantFile {
    pub path: Seq<char>,
    pub reason: Seq<char>,
    /// In hundredths.
    pub confidence: int,
    pub evidence: Seq<Seq<char>>,
}

impl View for RelevantFileBlock {
    type V = RelevantFile;

    open spec fn view(&self) -> RelevantFile {
        RelevantFile {
            path: self.path@,
            reason: self.reason@,
            confidence: self.confidence as int,
            evidence: texts(self.evidence@),
        }
    }
}

/// The models of a list of files.
pub open spec fn file_views(files: Seq<RelevantFileBlock>) -> Seq<RelevantFile> {
    Seq::new(files.len(), |i: int| files[i]@)
}

// ---------------------------------------------------------------------------
// Merging
// ---------------------------------------------------------------------------

/// The paths of the files.
pub open spec fn paths_in(files: Seq<RelevantFile>) -> Seq<Seq<char>> {
    Seq::new(files.len(), |i: int| files[i].path)
}

/// The place of the first file at `path`, or the number of files where there is none.
pub open spec fn place_of(files: Seq<RelevantFile>, path: Seq<char>) -> int {
    path_place(paths_in(files), path)
}

/// The texts of `list`, and after them those of `more` that are not among them yet.
pub open spec fn with_new(list: Seq<Seq<char>>, more: Seq<Seq<char>>) -> Seq<Seq<char>>
    decreases more.len(),
{
    if more.len() == 0 {
        list
    } else {
        let before = with_new(list, more.drop_last());
        if before.contains(more.last()) {
            before
        } else {
            before.push(more.last())
        }
    }
}

/// What is known of a file once `file` is known of it too.
pub open spec fn merged_file(current: RelevantFile, file: RelevantFile) -> RelevantFile {
    RelevantFile {
        confidence: if current.confidence < file.confidence {
            file.confidence
        } else {
            current.confidence
        },
        evidence: with_new(current.evidence, file.evidence),
        ..current
    }
}

/// The files with one more; a file at a path that is there already is merged into that one.
pub open spec fn merged_one(files: Seq<RelevantFile>, file: RelevantFile) -> Seq<RelevantFile> {
    let k = place_of(files, file.path);
    if k < files.len() {
        files.update(k, merged_file(files[k], file))
    } else {
        files.push(file)
    }
}

/// The files with those of `more`.
pub open spec fn merged(files: Seq<RelevantFile>, more: Seq<RelevantFile>) -> Seq<RelevantFile>
    decreases more.len(),
{
    if more.len() == 0 {
        files
    } else {
        merged_one(merged(files, more.drop_last()), more.last())
    }
}

proof fn lemma_place_of(files: Seq<RelevantFile>, path: Seq<char>, k: int)
    requires
        0 <= k <= files.len(),
        forall|i: int| 0 <= i < k ==> !same_path(#[trigger] files[i].path, path),
        k < files.len() ==> same_path(files[k].path, path),
    ensures
        place_of(files, path) == k,
{
    let paths = paths_in(files);
    assert forall|i: int| 0 <= i < k implies !same_path(#[trigger] paths[i], path) by {
        assert(paths[i] == files[i].path);
    }
    lemma_path_place_is(paths, path, k);
}

/// The place of a path: no file before it is at that path, and the one there is.
pub proof fn lemma_place(files: Seq<RelevantFile>, path: Seq<char>)
    ensures
        0 <= place_of(files, path) <= files.len(),
        forall|i: int|
            0 <= i < place_of(files, path) ==> !same_path(#[trigger] files[i].path, path),
        place_of(files, path) < files.len() ==> same_path(
            files[place_of(files, path)].path,
            path,
        ),
{
    let paths = paths_in(files);
    lemma_path_place(paths, path);
    assert forall|i: int| 0 <= i < place_of(files, path) implies !same_path(
        #[trigger] files[i].path,
        path,
    ) by {
        assert(paths[i] == files[i].path);
    }
}

fn find_file(files: &Vec<RelevantFileBlock>, path: &str) -> (k: usize)
    ensures
        k == place_of(file_views(files@), path@),
        k <= files@.len(),
{
    let mut k: usize = 0;
    while k < files.len() && !paths_equal(files[k].path.as_str(), path)
        invariant
            k <= files@.len(),
            forall|i: int| 0 <= i < k ==> !same_path(#[trigger] files@[i].path@, path@),
        ensures
            k < files@.len() ==> same_path(files@[k as int].path@, path@),
        decreases files@.len() - k,
    {
        k += 1;
    }
    proof {
        let views = file_views(files@);
        assert forall|i: int| 0 <= i < k implies !same_path(#[trigger] views[i].path, path@) by {
            assert(views[i].path == files@[i].path@);
        }
        lemma_place_of(views, path@, k as int);
    }
    k
}

fn add_evidence(list: &mut Vec<String>, more: &Vec<String>)
    ensures
        texts(final(list)@) == with_new(texts(old(list)@), texts(more@)),
{
    let ghost before = texts(list@);
    let mut i: usize = 0;
    proof {
        assert(texts(more@).take(0) =~= Seq::<Seq<char>>::empty());
    }
    while i < more.len()
        invariant
            i <= more@.len(),
            texts(list@) == with_new(before, texts(more@).take(i as int)),
        decreases more@.len() - i,
    {
        broadcast use lemma_texts_push;

        proof {
            let next = texts(more@).take(i + 1);
            assert(next.drop_last() =~= texts(more@).take(i as int));
            assert(next.last() == more@[i as int]@);
        }
        if !list_contains(list, more[i].as_str()) {
            list.push(more[i].clone());
        }
        i += 1;
    }
    proof {
        assert(texts(more@).take(more@.len() as int) =~= texts(more@));
    }
}

fn merge_file(current: &mut RelevantFileBlock, file: &RelevantFileBlock)
    ensures
        final(current)@ == merged_file(old(current)@, file@),
{
    if current.confidence < file.confidence {
        current.confidence = file.confidence;
    }
    add_evidence(&mut current.evidence, &file.evidence);
}

fn copy_of(file: &RelevantFileBlock) -> (r: RelevantFileBlock)
    ensures
        r@ == file@,
{
    RelevantFileBlock {
        path: file.path.clone(),
        reason: file.reason.clone(),
        confidence: file.confidence,
        evidence: crate::text::first_texts(&file.evidence, file.evidence.len()),
    }
}

fn merge_one(existing: &mut Vec<RelevantFileBlock>, file: RelevantFileBlock)
    ensures
        file_views(final(existing)@) == merged_one(file_views(old(existing)@), file@),
{
    let ghost before = file_views(existing@);
    let k: usize = find_file(existing, file.path.as_str());
    if k < existing.len() {
        let mut current = copy_of(&existing[k]);
        merge_file(&mut current, &file);
        existing.set(k, current);
    } else {
        existing.push(file);
    }
    proof {
        assert(file_views(existing@) =~= merged_one(before, file@));
    }
}

/// Adds files to a list. A file at a path that is there already gives it its evidence, and its
/// confidence where that is higher.
pub fn merge_relevant_files(
    existing: &mut Vec<RelevantFileBlock>,
    files: &Vec<RelevantFileBlock>,
)
    ensures
        file_views(final(existing)@) == merged(file_views(old(existing)@), file_views(files@)),
{
    let ghost before = file_views(existing@);
    let mut i: usize = 0;
    proof {
        assert(file_views(files@).take(0) =~= Seq::<RelevantFile>::empty());
    }
    while i < files.len()
        invariant
            i <= files@.len(),
            file_views(existing@) == merged(before, file_views(files@).take(i as int)),
        decreases files@.len() - i,
    {
        proof {
            let next = file_views(files@).take(i + 1);
            assert(next.drop_last() =~= file_views(files@).take(i as int));
            assert(next.last() == files@[i as int]@);
        }
        merge_one(existing, copy_of(&files[i]));
        i += 1;
    }
    proof {
        assert(file_views(files@).take(files@.len() as int) =~= file_views(files@));
    }
}

/// What is known of a file that a snippet was read from.
pub open spec fn observed_file(path: Seq<char>) -> RelevantFile {
    RelevantFile {
        path,
        reason: "small snippet read by ACE agent"@,
        confidence: 65,
        evidence: seq!["small snippet read by ACE agent"@],
    }
}

/// Adds a file that a snippet was read from.
pub fn add_observed_relevant_file(relevant_files: &mut Vec<RelevantFileBlock>, path: &str)
    ensures
        file_views(final(relevant_files)@) == merged_one(
            file_views(old(relevant_files)@),
            observed_file(path@),
        ),
{
    broadcast use lemma_texts_push;

    let mut evidence: Vec<String> = Vec::new();
    evidence.push("small snippet read by ACE agent".to_owned());
    let file = RelevantFileBlock {
        path: path.to_owned(),
        reason: "small snippet read by ACE agent".to_owned(),
        confidence: 65,
        evidence,
    };
    proof {
        assert(file@ =~= observed_file(path@));
    }
    merge_one(relevant_files, file);
}

/// No two files are at the same path.
pub open spec fn distinct_paths(files: Seq<RelevantFile>) -> bool {
    forall|i: int, j: int|
        0 <= i < j < files.len() ==> !same_path(#[trigger] files[i].path, #[trigger] files[j].path)
}

/// What is known of a file never becomes less.
pub open spec fn grew(before: RelevantFile, after: RelevantFile) -> bool {
    &&& after.path == before.path
    &&& after.reason == before.reason
    &&& before.confidence <= after.confidence
    &&& before.evidence.is_prefix_of(after.evidence)
}

/// The files that were there are there still, at the same place, and no less is known of them.
pub open spec fn files_grew(before: Seq<RelevantFile>, after: Seq<RelevantFile>) -> bool {
    &&& before.len() <= after.len()
    &&& forall|i: int| 0 <= i < before.len() ==> grew(before[i], #[trigger] after[i])
}

proof fn lemma_with_new(list: Seq<Seq<char>>, more: Seq<Seq<char>>)
    ensures
        list.is_prefix_of(with_new(list, more)),
        forall|i: int| 0 <= i < more.len() ==> with_new(list, more).contains(#[trigger] more[i]),
        list.no_duplicates() ==> with_new(list, more).no_duplicates(),
    decreases more.len(),
{
    if more.len() > 0 {
        let before = with_new(list, more.drop_last());
        let after = with_new(list, more);
        lemma_with_new(list, more.drop_last());
        assert forall|i: int| 0 <= i < more.len() implies after.contains(#[trigger] more[i]) by {
            if i < more.len() - 1 {
                assert(more.drop_last()[i] == more[i]);
                let k = choose|k: int| 0 <= k < before.len() && before[k] == more[i];
                assert(after[k] == more[i]);
            } else if !before.contains(more.last()) {
                assert(after.last() == more.last());
            }
        }
        if list.no_duplicates() && !before.contains(more.last()) {
            assert forall|i: int, j: int|
                0 <= i < after.len() && 0 <= j < after.len() && i != j implies after[i]
                != after[j] by {
                if i < before.len() {
                    assert(before.contains(before[i]));
                }
                if j < before.len() {
                    assert(before.contains(before[j]));
                }
            }
        }
    }
}

proof fn lemma_merged_one(files: Seq<RelevantFile>, file: RelevantFile)
    ensures
        files_grew(files, merged_one(files, file)),
        place_of(merged_one(files, file), file.path) < merged_one(files, file).len(),
        distinct_paths(files) ==> distinct_paths(merged_one(files, file)),
{
    let after = merged_one(files, file);
    let k = place_of(files, file.path);
    lemma_place(files, file.path);
    if k < files.len() {
        lemma_with_new(files[k].evidence, file.evidence);
        assert forall|i: int| 0 <= i < k implies !same_path(
            #[trigger] after[i].path,
            file.path,
        ) by {
            assert(after[i] == files[i]);
        }
        lemma_place_of(after, file.path, k);
    } else {
        assert forall|i: int| 0 <= i < files.len() implies !same_path(
            #[trigger] after[i].path,
            file.path,
        ) by {
            assert(after[i] == files[i]);
        }
        lemma_place_of(after, file.path, files.len() as int);
    }
    if distinct_paths(files) {
        assert forall|i: int, j: int| 0 <= i < j < after.len() implies !same_path(
            #[trigger] after[i].path,
            #[trigger] after[j].path,
        ) by {
            assert(after[i].path == files[i].path);
            if j < files.len() {
                assert(after[j].path == files[j].path);
            }
        }
    }
}

/// Merging loses nothing: each file stays at its place with at least the confidence and the
/// evidence that it had, each added file has a place, and where no two files were at the same
/// path none are afterwards.
pub proof fn law_merge(files: Seq<RelevantFile>, more: Seq<RelevantFile>)
    ensures
        files_grew(files, merged(files, more)),
        forall|j: int|
            0 <= j < more.len() ==> place_of(merged(files, more), (#[trigger] more[j]).path)
                < merged(files, more).len(),
        distinct_paths(files) ==> distinct_paths(merged(files, more)),
    decreases more.len(),
{
    if more.len() > 0 {
        let before = merged(files, more.drop_last());
        let after = merged(files, more);
        law_merge(files, more.drop_last());
        lemma_merged_one(before, more.last());
        assert forall|i: int| 0 <= i < files.len() implies grew(files[i], #[trigger] after[i]) by {
            assert(grew(files[i], before[i]));
            assert(grew(before[i], after[i]));
        }
        assert forall|j: int| 0 <= j < more.len() implies place_of(after, (#[trigger] more[j]).path)
            < after.len() by {
            if j < more.len() - 1 {
                assert(more.drop_last()[j] == more[j]);
                let path = more[j].path;
                let k = place_of(before, path);
                lemma_place(before, path);
                lemma_place(after, path);
                assert(grew(before[k], after[k]));
                if place_of(after, path) == after.len() {
                    assert(!same_path(after[k].path, path));
                }
            }
        }
    }
}

/// The larger of two confidences, where there are any.
pub open spec fn larger(a: Option<int>, b: Option<int>) -> Option<int> {
    match (a, b) {
        (Some(x), Some(y)) => if x < y {
            Some(y)
        } else {
            Some(x)
        },
        (Some(x), None) => Some(x),
        (None, _) => b,
    }
}

/// The confidence of one entry for a path; `None` for an entry at another path.
pub open spec fn confidence_at(file: RelevantFile, path: Seq<char>) -> Option<int> {
    if same_path(file.path, path) {
        Some(file.confidence)
    } else {
        None
    }
}

/// The largest confidence of all entries for a path; `None` where there is no entry for it.
pub open spec fn largest_confidence(files: Seq<RelevantFile>, path: Seq<char>) -> Option<int>
    decreases files.len(),
{
    if files.len() == 0 {
        None
    } else {
        larger(largest_confidence(files.drop_last(), path), confidence_at(files.last(), path))
    }
}

proof fn lemma_largest_update(
    files: Seq<RelevantFile>,
    k: int,
    file: RelevantFile,
    path: Seq<char>,
)
    requires
        0 <= k < files.len(),
        same_path(files[k].path, file.path),
    ensures
        largest_confidence(files.update(k, merged_file(files[k], file)), path) == larger(
            largest_confidence(files, path),
            confidence_at(file, path),
        ),
    decreases files.len(),
{
    let after = files.update(k, merged_file(files[k], file));
    let init = files.drop_last();
    if k == files.len() - 1 {
        assert(after.drop_last() =~= init);
    } else {
        assert(after.drop_last() =~= init.update(k, merged_file(init[k], file)));
        lemma_largest_update(init, k, file, path);
    }
}

proof fn lemma_largest_merged(
    files: Seq<RelevantFile>,
    more: Seq<RelevantFile>,
    path: Seq<char>,
)
    ensures
        largest_confidence(merged(files, more), path) == largest_confidence(files + more, path),
    decreases more.len(),
{
    if more.len() == 0 {
        assert(files + more =~= files);
    } else {
        let before = merged(files, more.drop_last());
        let file = more.last();
        lemma_largest_merged(files, more.drop_last(), path);
        assert((files + more).drop_last() =~= files + more.drop_last());
        lemma_place(before, file.path);
        let k = place_of(before, file.path);
        if k < before.len() {
            lemma_largest_update(before, k, file, path);
        } else {
            assert(before.push(file).drop_last() =~= before);
        }
    }
}

proof fn lemma_no_entry(files: Seq<RelevantFile>, path: Seq<char>)
    requires
        forall|i: int| 0 <= i < files.len() ==> !same_path(#[trigger] files[i].path, path),
    ensures
        largest_confidence(files, path) is None,
    decreases files.len(),
{
    if files.len() > 0 {
        let init = files.drop_last();
        assert forall|i: int| 0 <= i < init.len() implies !same_path(
            #[trigger] init[i].path,
            path,
        ) by {
            assert(init[i] == files[i]);
        }
        assert(!same_path(files[files.len() - 1].path, path));
        lemma_no_entry(init, path);
    }
}

proof fn lemma_only_entry(files: Seq<RelevantFile>, k: int)
    requires
        distinct_paths(files),
        0 <= k < files.len(),
    ensures
        largest_confidence(files, files[k].path) == Some(files[k].confidence),
    decreases files.len(),
{
    let init = files.drop_last();
    let last = files.len() - 1;
    if k == last {
        assert forall|i: int| 0 <= i < init.len() implies !same_path(
            #[trigger] init[i].path,
            files[k].path,
        ) by {
            assert(!same_path(files[i].path, files[last].path));
        }
        lemma_no_entry(init, files[k].path);
    } else {
        assert(!same_path(files[k].path, files[last].path));
        assert(distinct_paths(init)) by {
            assert forall|i: int, j: int| 0 <= i < j < init.len() implies !same_path(
                #[trigger] init[i].path,
                #[trigger] init[j].path,
            ) by {
                assert(!same_path(files[i].path, files[j].path));
            }
        }
        lemma_only_entry(init, k);
    }
}

/// Merging keeps for each path the largest confidence of all its entries: over all merged files
/// that confidence is the same as over all entries, and where no two files were at the same path,
/// each file has it.
pub proof fn law_merge_confidence(
    files: Seq<RelevantFile>,
    more: Seq<RelevantFile>,
    path: Seq<char>,
)
    ensures
        largest_confidence(merged(files, more), path) == largest_confidence(files + more, path),
        distinct_paths(files) ==> forall|k: int|
            0 <= k < merged(files, more).len() ==> Some(
                (#[trigger] merged(files, more)[k]).confidence,
            ) == largest_confidence(files + more, merged(files, more)[k].path),
{
    let after = merged(files, more);
    lemma_largest_merged(files, more, path);
    if distinct_paths(files) {
        law_merge(files, more);
        assert forall|k: int| 0 <= k < after.len() implies Some((#[trigger] after[k]).confidence)
            == largest_confidence(files + more, after[k].path) by {
            lemma_only_entry(after, k);
            lemma_largest_merged(files, more, after[k].path);
        }
    }
}

/// Whether everything that `file` says is known already.
spec fn absorbed(files: Seq<RelevantFile>, file: RelevantFile) -> bool {
    let k = place_of(files, file.path);
    &&& k < files.len()
    &&& file.confidence <= files[k].confidence
    &&& forall|i: int|
        0 <= i < file.evidence.len() ==> files[k].evidence.contains(#[trigger] file.evidence[i])
}

proof fn lemma_nothing_new(list: Seq<Seq<char>>, more: Seq<Seq<char>>)
    requires
        forall|i: int| 0 <= i < more.len() ==> list.contains(#[trigger] more[i]),
    ensures
        with_new(list, more) == list,
    decreases more.len(),
{
    if more.len() > 0 {
        let init = more.drop_last();
        assert forall|i: int| 0 <= i < init.len() implies list.contains(#[trigger] init[i]) by {
            assert(init[i] == more[i]);
        }
        lemma_nothing_new(list, init);
        assert(list.contains(more[more.len() - 1]));
    }
}

proof fn lemma_absorbed_stays(
    before: Seq<RelevantFile>,
    after: Seq<RelevantFile>,
    file: RelevantFile,
)
    requires
        absorbed(before, file),
        files_grew(before, after),
    ensures
        absorbed(after, file),
{
    let k = place_of(before, file.path);
    lemma_place(before, file.path);
    assert(grew(before[k], after[k]));
    assert forall|i: int| 0 <= i < k implies !same_path(#[trigger] after[i].path, file.path) by {
        assert(grew(before[i], after[i]));
        assert(!same_path(before[i].path, file.path));
    }
    lemma_place_of(after, file.path, k);
    assert forall|i: int| 0 <= i < file.evidence.len() implies after[k].evidence.contains(
        #[trigger] file.evidence[i],
    ) by {
        let x = file.evidence[i];
        assert(before[k].evidence.contains(x));
        let m = choose|m: int|
            0 <= m < before[k].evidence.len() && #[trigger] before[k].evidence[m] == x;
        assert(after[k].evidence[m] == x);
    }
}

proof fn lemma_absorbed_after_merge(files: Seq<RelevantFile>, file: RelevantFile)
    ensures
        absorbed(merged_one(files, file), file),
{
    let after = merged_one(files, file);
    let k = place_of(files, file.path);
    lemma_place(files, file.path);
    assert forall|i: int| 0 <= i < k implies !same_path(#[trigger] after[i].path, file.path) by {
        assert(after[i] == files[i]);
    }
    lemma_place_of(after, file.path, k);
    if k < files.len() {
        lemma_with_new(files[k].evidence, file.evidence);
    }
}

proof fn lemma_all_absorbed(files: Seq<RelevantFile>, more: Seq<RelevantFile>)
    ensures
        forall|j: int| 0 <= j < more.len() ==> absorbed(merged(files, more), #[trigger] more[j]),
    decreases more.len(),
{
    if more.len() > 0 {
        let init = more.drop_last();
        let before = merged(files, init);
        let after = merged(files, more);
        lemma_all_absorbed(files, init);
        lemma_merged_one(before, more.last());
        lemma_absorbed_after_merge(before, more.last());
        assert forall|j: int| 0 <= j < more.len() implies absorbed(after, #[trigger] more[j]) by {
            if j < init.len() {
                assert(init[j] == more[j]);
                lemma_absorbed_stays(before, after, more[j]);
            }
        }
    }
}

proof fn lemma_merge_absorbed(files: Seq<RelevantFile>, more: Seq<RelevantFile>)
    requires
        forall|j: int| 0 <= j < more.len() ==> absorbed(files, #[trigger] more[j]),
    ensures
        merged(files, more) == files,
    decreases more.len(),
{
    if more.len() > 0 {
        let init = more.drop_last();
        let file = more.last();
        assert forall|j: int| 0 <= j < init.len() implies absorbed(files, #[trigger] init[j]) by {
            assert(init[j] == more[j]);
        }
        lemma_merge_absorbed(files, init);
        assert(absorbed(files, more[more.len() - 1]));
        let k = place_of(files, file.path);
        lemma_place(files, file.path);
        lemma_nothing_new(files[k].evidence, file.evidence);
        assert(merged_file(files[k], file) =~= files[k]);
        assert(merged_one(files, file) =~= files);
    }
}

/// Merging the same files a second time changes nothing.
pub proof fn law_merge_twice(files: Seq<RelevantFile>, more: Seq<RelevantFile>)
    ensures
        merged(merged(files, more), more) == merged(files, more),
{
    lemma_all_absorbed(files, more);
    lemma_merge_absorbed(merged(files, more), more);
}

// ---------------------------------------------------------------------------
// Snippets
// ---------------------------------------------------------------------------

/// The class of characters that may stand around a path.
pub open spec fn path_quotes() -> spec_fn(char) -> bool {
    |c: char| c == '`' || c == '"' || c == '\'' || c == ' '
}

fn char_is_path_quote(c: char) -> (r: bool)
    ensures
        r == path_quotes()(c),
{
    c == '`' || c == '"' || c == '\'' || c == ' '
}

/// The path that is meant, where it is one below the project: not empty, not absolute, and
/// nowhere going up.
pub open spec fn safe_path(path: Seq<char>) -> Option<Seq<char>> {
    let inner = trimmed_where(path, path_quotes());
    if inner.len() == 0 || is_absolute_path(inner) || components(inner).contains(Part::Parent) {
        None
    } else {
        Some(inner)
    }
}

fn goes_up(path: &str) -> (r: bool)
    ensures
        r == components(path@).contains(Part::Parent),
{
    let parts = path_parts(path);
    proof {
        assert(part_views(parts@).len() == parts@.len());
    }
    let mut i: usize = 0;
    while i < parts.len()
        invariant
            i <= parts@.len(),
            part_views(parts@) == components(path@),
            forall|k: int| 0 <= k < i ==> part_views(parts@)[k] != Part::Parent,
        decreases parts@.len() - i,
    {
        if let PathPart::Parent = &parts[i] {
            proof {
                assert(part_views(parts@)[i as int] == Part::Parent);
            }
            return true;
        }
        i += 1;
    }
    proof {
        assert(part_views(parts@).len() == parts@.len());
    }
    false
}

/// The path that is meant, where it is one below the project: not empty, not absolute, and
/// nowhere going up.
pub fn safe_relative_path(path: &str) -> (r: Option<String>)
    ensures
        r is Some <==> safe_path(path@) is Some,
        r matches Some(p) ==> safe_path(path@) == Some(p@),
{
    let path = trim_where(path, char_is_path_quote, Ghost(path_quotes()));
    if path.is_empty() || is_absolute(path) || goes_up(path) {
        return None;
    }
    Some(path.to_owned())
}

/// Where a snippet is read, for a path as it was asked for.
pub open spec fn snippet_target_of(repo_root: Seq<char>, path: Seq<char>) -> Option<Seq<char>> {
    match safe_path(path) {
        Some(relative) => if is_absolute_path(joined_path(repo_root, relative)) {
            Some(joined_path(repo_root, relative))
        } else {
            None
        },
        None => None,
    }
}

/// Where snippets are read, for paths as they were asked for; some may have no place.
pub open spec fn snippet_targets_of(repo_root: Seq<char>, paths: Seq<Seq<char>>) -> Seq<Seq<char>>
    decreases paths.len(),
{
    if paths.len() == 0 {
        Seq::empty()
    } else {
        let before = snippet_targets_of(repo_root, paths.drop_last());
        match snippet_target_of(repo_root, paths.last()) {
            Some(target) => before.push(target),
            None => before,
        }
    }
}

/// The files to read for the paths that were asked for, each an absolute path; a path that does
/// not lie below the project is left out.
pub fn snippet_targets(repo_root: &str, paths: &Vec<String>) -> (out: Vec<String>)
    ensures
        texts(out@) == snippet_targets_of(repo_root@, texts(paths@)),
{
    let mut out: Vec<String> = Vec::new();
    let mut i: usize = 0;
    proof {
        assert(texts(paths@).take(0) =~= Seq::<Seq<char>>::empty());
        assert(texts(out@) =~= Seq::<Seq<char>>::empty());
    }
    while i < paths.len()
        invariant
            i <= paths@.len(),
            texts(out@) == snippet_targets_of(repo_root@, texts(paths@).take(i as int)),
        decreases paths@.len() - i,
    {
        broadcast use lemma_texts_push;

        proof {
            let next = texts(paths@).take(i + 1);
            assert(next.drop_last() =~= texts(paths@).take(i as int));
            assert(next.last() == paths@[i as int]@);
        }
        if let Some(relative) = safe_relative_path(paths[i].as_str()) {
            let target = join_path(repo_root, relative.as_str());
            if is_absolute(target.as_str()) {
                out.push(target);
            }
        }
        i += 1;
    }
    proof {
        assert(texts(paths@).take(paths@.len() as int) =~= texts(paths@));
    }
    out
}

/// A part of a file that was read.
#[derive(Clone, Debug, PartialEq, Eq)]
pub struct AceSnippetObservation {
    pub path: String,
    pub content: String,
    pub truncated: bool,
}

/// The model of an [`AceSnippetObservation`].
#[verifier::ext_equal]
pub struct Snippet {
    pub path: Seq<char>,
    pub content: Seq<char>,
    pub truncated: bool,
}

impl View for AceSnippetObservation {
    type V = Snippet;

    open spec fn view(&self) -> Snippet {
        Snippet { path: self.path@, content: self.content@, truncated: self.truncated }
    }
}

/// The models of a list of snippets.
pub open spec fn snippet_views(snippets: Seq<AceSnippetObservation>) -> Seq<Snippet> {
    Seq::new(snippets.len(), |i: int| snippets[i]@)
}

/// The snippet of a file with these bytes.
pub open spec fn snippet_of(repo_root: Seq<char>, target: Seq<char>, bytes: Seq<u8>) -> Snippet {
    Snippet {
        path: relative_to(target, repo_root),
        content: content_of(bytes, MAX_ACE_SNIPPET_BYTES as int),
        truncated: bytes.len() > MAX_ACE_SNIPPET_BYTES,
    }
}

/// The bytes of the files that could be read.
pub open spec fn contents_view(contents: Seq<Option<Vec<u8>>>) -> Seq<Option<Seq<u8>>> {
    Seq::new(
        contents.len(),
        |i: int|
            match contents[i] {
                Some(bytes) => Some(bytes@),
                None => None,
            },
    )
}

/// The snippets of the first `n` files; one that could not be read, or is no text, gives none.
pub open spec fn snippets_upto(
    repo_root: Seq<char>,
    targets: Seq<Seq<char>>,
    contents: Seq<Option<Seq<u8>>>,
    n: int,
) -> Seq<Snippet>
    decreases n,
{
    if n <= 0 {
        Seq::empty()
    } else {
        let before = snippets_upto(repo_root, targets, contents, n - 1);
        match contents[n - 1] {
            Some(bytes) => if is_text(bytes) {
                before.push(snippet_of(repo_root, targets[n - 1], bytes))
            } else {
                before
            },
            None => before,
        }
    }
}

/// The snippets of the files in `targets`, given what was read of each.
pub fn read_small_snippets(
    repo_root: &str,
    targets: &Vec<String>,
    contents: &Vec<Option<Vec<u8>>>,
) -> (out: Vec<AceSnippetObservation>)
    requires
        targets@.len() == contents@.len(),
    ensures
        snippet_views(out@) == snippets_upto(
            repo_root@,
            texts(targets@),
            contents_view(contents@),
            targets@.len() as int,
        ),
{
    let mut out: Vec<AceSnippetObservation> = Vec::new();
    let mut i: usize = 0;
    proof {
        assert(snippet_views(out@) =~= Seq::<Snippet>::empty());
    }
    while i < targets.len()
        invariant
            i <= targets@.len() == contents@.len(),
            snippet_views(out@) == snippets_upto(
                repo_root@,
                texts(targets@),
                contents_view(contents@),
                i as int,
            ),
        decreases targets@.len() - i,
    {
        let ghost before = out@;
        if let Some(bytes) = &contents[i] {
            if let Some(text) = limited_text(bytes, MAX_ACE_SNIPPET_BYTES) {
                let snippet = AceSnippetObservation {
                    path: relative_path(targets[i].as_str(), repo_root),
                    content: text.content,
                    truncated: text.truncated,
                };
                out.push(snippet);
                proof {
                    assert(snippet_views(out@) =~= snippet_views(before).push(snippet@));
                    assert(texts(targets@)[i as int] == targets@[i as int]@);
                    assert(snippet@ == snippet_of(repo_root@, targets@[i as int]@, bytes@));
                }
            }
        }
        i += 1;
    }
    out
}

/// The paths of the snippets.
pub open spec fn snippet_paths(snippets: Seq<Snippet>) -> Seq<Seq<char>> {
    Seq::new(snippets.len(), |i: int| snippets[i].path)
}

/// Only files below the project are read: each target is the project's root followed by a path
/// that goes nowhere up.
pub proof fn law_snippet_targets(repo_root: Seq<char>, paths: Seq<Seq<char>>, i: int)
    requires
        0 <= i < snippet_targets_of(repo_root, paths).len(),
    ensures
        ({
            let target = snippet_targets_of(repo_root, paths)[i];
            &&& is_absolute_path(target)
            &&& exists|relative: Seq<char>|
                target == #[trigger] joined_path(repo_root, relative) && !is_absolute_path(relative)
                    && !components(relative).contains(Part::Parent)
        }),
    decreases paths.len(),
{
    let before = snippet_targets_of(repo_root, paths.drop_last());
    if i < before.len() {
        law_snippet_targets(repo_root, paths.drop_last(), i);
    } else {
        let relative = safe_path(paths.last())->Some_0;
        assert(snippet_targets_of(repo_root, paths)[i] == joined_path(repo_root, relative));
    }
}

/// Every file that is merged in is found in the list afterwards, whatever was there before: with
/// at least its confidence, and with all of its evidence.
pub proof fn law_merge_adds(files: Seq<RelevantFile>, more: Seq<RelevantFile>, j: int)
    requires
        0 <= j < more.len(),
    ensures
        ({
            let after = merged(files, more);
            let k = place_of(after, more[j].path);
            &&& 0 <= k < after.len()
            &&& same_path(after[k].path, more[j].path)
            &&& more[j].confidence <= after[k].confidence
            &&& forall|i: int|
                0 <= i < more[j].evidence.len() ==> after[k].evidence.contains(
                    #[trigger] more[j].evidence[i],
                )
        }),
{
    let after = merged(files, more);
    lemma_all_absorbed(files, more);
    assert(absorbed(after, more[j]));
    lemma_place(after, more[j].path);
}

/// Whether everything that is known of a file stands in one of the entries for its path.
pub open spec fn is_backed(file: RelevantFile, entries: Seq<RelevantFile>) -> bool {
    &&& exists|i: int|
        0 <= i < entries.len() && (#[trigger] entries[i]).path == file.path && entries[i].reason
            == file.reason
    &&& exists|i: int|
        0 <= i < entries.len() && same_path((#[trigger] entries[i]).path, file.path)
            && entries[i].confidence == file.confidence
    &&& forall|e: Seq<char>| #[trigger]
        file.evidence.contains(e) ==> exists|i: int|
            0 <= i < entries.len() && same_path((#[trigger] entries[i]).path, file.path)
                && entries[i].evidence.contains(e)
}

proof fn lemma_backed_more(
    file: RelevantFile,
    entries: Seq<RelevantFile>,
    more: Seq<RelevantFile>,
)
    requires
        is_backed(file, entries),
        entries.is_prefix_of(more),
    ensures
        is_backed(file, more),
{
    assert forall|i: int| 0 <= i < entries.len() implies #[trigger] entries[i] == more[i] by {}
    let i = choose|i: int|
        0 <= i < entries.len() && (#[trigger] entries[i]).path == file.path && entries[i].reason
            == file.reason;
    assert(more[i].path == file.path);
    let i = choose|i: int|
        0 <= i < entries.len() && same_path((#[trigger] entries[i]).path, file.path)
            && entries[i].confidence == file.confidence;
    assert(same_path(more[i].path, file.path));
    assert forall|e: Seq<char>| #[trigger] file.evidence.contains(e) implies exists|i: int|
        0 <= i < more.len() && same_path((#[trigger] more[i]).path, file.path)
            && more[i].evidence.contains(e) by {
        let i = choose|i: int|
            0 <= i < entries.len() && same_path((#[trigger] entries[i]).path, file.path)
                && entries[i].evidence.contains(e);
        assert(same_path(more[i].path, file.path));
    }
}

proof fn lemma_with_new_members(list: Seq<Seq<char>>, more: Seq<Seq<char>>, e: Seq<char>)
    requires
        with_new(list, more).contains(e),
    ensures
        list.contains(e) || more.contains(e),
    decreases more.len(),
{
    if more.len() > 0 {
        let before = with_new(list, more.drop_last());
        let k = choose|k: int| 0 <= k < with_new(list, more).len() && with_new(list, more)[k] == e;
        if k < before.len() {
            assert(before.contains(e));
            lemma_with_new_members(list, more.drop_last(), e);
            if more.drop_last().contains(e) {
                let m = choose|m: int| 0 <= m < more.drop_last().len() && more.drop_last()[m] == e;
                assert(more[m] == e);
            }
        } else {
            assert(more[more.len() - 1] == e);
        }
    }
}

/// Merging invents nothing: the path and the reason of each file are those of an entry, and so are
/// its confidence and each piece of its evidence, of an entry for the same path.
pub proof fn law_merge_invents_nothing(
    files: Seq<RelevantFile>,
    more: Seq<RelevantFile>,
    k: int,
)
    requires
        0 <= k < merged(files, more).len(),
    ensures
        is_backed(merged(files, more)[k], files + more),
    decreases more.len(),
{
    let after = merged(files, more);
    let all = files + more;
    if more.len() == 0 {
        assert(all =~= files);
        let file = files[k];
        assert(all[k] == file);
        assert forall|e: Seq<char>| #[trigger] file.evidence.contains(e) implies exists|i: int|
            0 <= i < all.len() && same_path((#[trigger] all[i]).path, file.path)
                && all[i].evidence.contains(e) by {
            assert(same_path(all[k].path, file.path));
        }
    } else {
        let init = more.drop_last();
        let before = merged(files, init);
        let last = more.last();
        let p = place_of(before, last.path);
        lemma_place(before, last.path);
        assert(all.drop_last() =~= files + init);
        assert((files + init).is_prefix_of(all));
        let n = all.len() - 1;
        assert(all[n] == last);
        if k < before.len() {
            law_merge_invents_nothing(files, init, k);
            lemma_backed_more(before[k], files + init, all);
            if k == p {
                let file = after[k];
                assert(same_path(all[n].path, file.path));
                assert forall|e: Seq<char>| #[trigger]
                    file.evidence.contains(e) implies exists|i: int|
                    0 <= i < all.len() && same_path((#[trigger] all[i]).path, file.path)
                        && all[i].evidence.contains(e) by {
                    lemma_with_new_members(before[k].evidence, last.evidence, e);
                    if before[k].evidence.contains(e) {
                        let i = choose|i: int|
                            0 <= i < all.len() && same_path((#[trigger] all[i]).path, before[k].path)
                                && all[i].evidence.contains(e);
                        assert(same_path(all[i].path, file.path));
                    }
                }
                let i = choose|i: int|
                    0 <= i < all.len() && (#[trigger] all[i]).path == before[k].path
                        && all[i].reason == before[k].reason;
                assert(all[i].path == file.path);
                let i = choose|i: int|
                    0 <= i < all.len() && same_path((#[trigger] all[i]).path, before[k].path)
                        && all[i].confidence == before[k].confidence;
                assert(same_path(all[i].path, file.path));
            }
        } else {
            assert(after[k] == last);
            assert(same_path(all[n].path, last.path));
        }
    }
}

/// Which of the paths that are asked for are read: a plain one, neither empty nor absolute, that
/// goes nowhere up and has no quote around it, is read below an absolute root.
pub proof fn law_plain_paths_are_read(repo_root: Seq<char>, paths: Seq<Seq<char>>, i: int)
    requires
        0 <= i < paths.len(),
        is_absolute_path(repo_root),
        paths[i].len() > 0,
        !is_absolute_path(paths[i]),
        !components(paths[i]).contains(Part::Parent),
        !"`\"' "@.contains(paths[i][0]),
        !"`\"' "@.contains(paths[i].last()),
    ensures
        snippet_targets_of(repo_root, paths).contains(joined_path(repo_root, paths[i])),
    decreases paths.len(),
{
    reveal_strlit("`\"' ");
    let path = paths[i];
    let quotes = "`\"' "@;
    assert(quotes[0] == '`' && quotes[1] == '"' && quotes[2] == '\'' && quotes[3] == ' ');
    assert(quotes.contains('`') && quotes.contains('"') && quotes.contains('\'')
        && quotes.contains(' '));
    assert(!path_quotes()(path[0]));
    assert(!path_quotes()(path.last()));
    assert(trimmed_where(path, path_quotes()) == path);
    let target = joined_path(repo_root, path);
    assert(target[0] == repo_root[0]);
    let before = snippet_targets_of(repo_root, paths.drop_last());
    let after = snippet_targets_of(repo_root, paths);
    if i == paths.len() - 1 {
        assert(after == before.push(target));
        assert(after[before.len() as int] == target);
    } else {
        law_plain_paths_are_read(repo_root, paths.drop_last(), i);
        let k = choose|k: int| 0 <= k < before.len() && before[k] == target;
        assert(after[k] == target);
    }
}

/// What is read of files: each one that could be read and is a text gives a snippet with its path
/// in the project, which is cut exactly where the file has more than two thousand bytes. No other
/// file gives one, and the snippets stand in the order of the files.
pub proof fn law_snippets(
    repo_root: Seq<char>,
    targets: Seq<Seq<char>>,
    contents: Seq<Option<Seq<u8>>>,
    n: int,
)
    requires
        0 <= n <= targets.len(),
        targets.len() == contents.len(),
    ensures
        snippets_upto(repo_root, targets, contents, n).len() <= n,
        n > 0 ==> snippets_upto(repo_root, targets, contents, n - 1).is_prefix_of(
            snippets_upto(repo_root, targets, contents, n),
        ) && snippets_upto(repo_root, targets, contents, n).len() <= snippets_upto(
            repo_root,
            targets,
            contents,
            n - 1,
        ).len() + 1,
        forall|i: int|
            0 <= i < n && (#[trigger] contents[i]) is Some && !contents[i]->Some_0.contains(0u8)
                ==> exists|k: int|
                0 <= k < snippets_upto(repo_root, targets, contents, n).len() && ({
                    let snippet = #[trigger] snippets_upto(repo_root, targets, contents, n)[k];
                    &&& snippet.path == relative_to(targets[i], repo_root)
                    &&& snippet.truncated == (contents[i]->Some_0.len() > 2000)
                    &&& contents[i]->Some_0.len() <= 2000 ==> snippet.content
                        == crate::text::trimmed(crate::bytes::lossy_text(contents[i]->Some_0))
                    &&& contents[i]->Some_0.len() > 2000 ==> snippet.content
                        == crate::text::trimmed(
                        crate::bytes::lossy_text(contents[i]->Some_0.take(2000)),
                    )
                }),
        forall|k: int|
            0 <= k < snippets_upto(repo_root, targets, contents, n).len() ==> exists|i: int|
                0 <= i < n && #[trigger] contents[i] is Some && !contents[i]->Some_0.contains(0u8)
                    && (#[trigger] snippets_upto(repo_root, targets, contents, n)[k]).path
                    == relative_to(targets[i], repo_root),
    decreases n,
{
    if n > 0 {
        let before = snippets_upto(repo_root, targets, contents, n - 1);
        let after = snippets_upto(repo_root, targets, contents, n);
        law_snippets(repo_root, targets, contents, n - 1);
        assert forall|i: int|
            0 <= i < n && (#[trigger] contents[i]) is Some && !contents[i]->Some_0.contains(
                0u8,
            ) implies exists|k: int|
            0 <= k < after.len() && ({
                let snippet = #[trigger] after[k];
                &&& snippet.path == relative_to(targets[i], repo_root)
                &&& snippet.truncated == (contents[i]->Some_0.len() > 2000)
                &&& contents[i]->Some_0.len() <= 2000 ==> snippet.content == crate::text::trimmed(
                    crate::bytes::lossy_text(contents[i]->Some_0),
                )
                &&& contents[i]->Some_0.len() > 2000 ==> snippet.content == crate::text::trimmed(
                    crate::bytes::lossy_text(contents[i]->Some_0.take(2000)),
                )
            }) by {
            if i == n - 1 {
                assert(after == before.push(after.last()));
                assert(after[before.len() as int].path == relative_to(targets[i], repo_root));
            } else {
                let k = choose|k: int|
                    0 <= k < before.len() && ({
                        let snippet = #[trigger] before[k];
                        &&& snippet.path == relative_to(targets[i], repo_root)
                        &&& snippet.truncated == (contents[i]->Some_0.len() > 2000)
                        &&& contents[i]->Some_0.len() <= 2000 ==> snippet.content
                            == crate::text::trimmed(
                            crate::bytes::lossy_text(contents[i]->Some_0),
                        )
                        &&& contents[i]->Some_0.len() > 2000 ==> snippet.content
                            == crate::text::trimmed(
                            crate::bytes::lossy_text(contents[i]->Some_0.take(2000)),
                        )
                    });
                assert(after[k] == before[k]);
            }
        }
        assert forall|k: int| 0 <= k < after.len() implies exists|i: int|
            0 <= i < n && #[trigger] contents[i] is Some && !contents[i]->Some_0.contains(0u8) && (
            #[trigger] after[k]).path == relative_to(targets[i], repo_root) by {
            if k < before.len() {
                let i = choose|i: int|
                    0 <= i < n - 1 && #[trigger] contents[i] is Some
                        && !contents[i]->Some_0.contains(0u8) && before[k].path == relative_to(
                        targets[i],
                        repo_root,
                    );
                assert(contents[i] is Some);
            } else {
                assert(contents[n - 1] is Some);
            }
        }
    }
}

/// Quotes and blanks around a path make no difference to what is read.
pub proof fn law_quoted_paths(
    repo_root: Seq<char>,
    before: Seq<char>,
    path: Seq<char>,
    after: Seq<char>,
)
    requires
        path.len() > 0,
        !"`\"' "@.contains(path[0]),
        !"`\"' "@.contains(path.last()),
        forall|k: int| 0 <= k < before.len() ==> "`\"' "@.contains(#[trigger] before[k]),
        forall|k: int| 0 <= k < after.len() ==> "`\"' "@.contains(#[trigger] after[k]),
    ensures
        safe_path(before + path + after) == safe_path(path),
        safe_path(path) == (if is_absolute_path(path) || components(path).contains(Part::Parent) {
            None
        } else {
            Some(path)
        }),
        snippet_target_of(repo_root, before + path + after) == snippet_target_of(repo_root, path),
{
    reveal_strlit("`\"' ");
    let quotes = "`\"' "@;
    assert(quotes.len() == 4);
    assert(quotes[0] == '`' && quotes[1] == '"' && quotes[2] == '\'' && quotes[3] == ' ');
    assert forall|c: char| #[trigger] quotes.contains(c) <==> path_quotes()(c) by {
        if path_quotes()(c) {
            assert(quotes[0] == c || quotes[1] == c || quotes[2] == c || quotes[3] == c);
        }
    }
    law_trimmed_where(before, path, after, path_quotes());
    let none = Seq::<char>::empty();
    law_trimmed_where(none, path, none, path_quotes());
    assert(none + path + none =~= path);
}

/// What is to be read stands in the order in which it was asked for: one path more adds at most one
/// place, at the end, and nothing is added for a path that leads out of the project.
pub proof fn law_targets_in_order(repo_root: Seq<char>, paths: Seq<Seq<char>>, path: Seq<char>)
    ensures
        snippet_targets_of(repo_root, Seq::empty()).len() == 0,
        snippet_target_of(repo_root, path) is None ==> snippet_targets_of(
            repo_root,
            paths.push(path),
        ) == snippet_targets_of(repo_root, paths),
        snippet_target_of(repo_root, path) matches Some(target) ==> snippet_targets_of(
            repo_root,
            paths.push(path),
        ) == snippet_targets_of(repo_root, paths).push(target),
{
    assert(paths.push(path).drop_last() =~= paths);
}

/// A file at a path that no file has comes last, as it is; files that are merged one list after
/// the other are merged as one list.
pub proof fn law_new_files_come_last(
    files: Seq<RelevantFile>,
    more: Seq<RelevantFile>,
    file: RelevantFile,
)
    ensures
        merged(files, Seq::empty()) == files,
        (forall|i: int|
            0 <= i < merged(files, more).len() ==> !same_path(
                (#[trigger] merged(files, more)[i]).path,
                file.path,
            )) ==> merged(files, more.push(file)) == merged(files, more).push(file),
        merged(files, more.push(file)).len() <= merged(files, more).len() + 1,
        merged(merged(files, more), seq![file]) == merged(files, more.push(file)),
{
    let before = merged(files, more);
    assert(more.push(file).drop_last() =~= more);
    assert(seq![file].drop_last() =~= Seq::empty());
    assert(merged(before, seq![file].drop_last()) == before);
    lemma_place(before, file.path);
}

} // verus!
