//! Which files of a project may matter for a prompt.
use vstd::prelude::*;
use crate::bytes::{byte_count, byte_len};
use crate::context_pack::{
    normalize_repo_path, repo_path, ContextWarning, GitBlock, IntentBlock, RelevantFileBlock,
};
use crate::ordered::{
    increasing, insert_ordered, is_strict_order, law_sorted_set, law_sorted_texts, law_text_order,
    lemma_insert_at, sort_texts, sorted_set, sorted_texts, text_before, text_less, text_order,
};
use crate::paths::{
    components, extension, extension_of, file_name, file_name_of, file_stem, file_stem_of,
    join_path, joined_path, law_path_order, lemma_path_place, lemma_path_place_is, part_views,
    path_before, path_less, path_order, path_parts, path_place, path_string, path_text, paths_equal,
    same_path, Part, PathPart,
};
use crate::relevant_files::{file_views, with_new, RelevantFile};
use crate::text::{
    begins_with, first_of, first_texts, lemma_filter_push, lemma_take_push, lemma_texts_push,
    list_contains, same_text, starts_with, texts, trim, trimmed,
};

verus! {

/// How many files are kept.
pub const MAX_RELEVANT_FILES: usize = 12;

/// How many files one search finds at most.
pub const FILE_SEARCH_LIMIT: usize = 8;

/// How many threads one search runs on.
pub const FILE_SEARCH_THREADS: usize = 2;

/// How many hits can be counted without the largest possible score.
pub const MAX_HITS: usize = 21_474_836;

// ---------------------------------------------------------------------------
// Paths that never count
// ---------------------------------------------------------------------------

/// Whether a directory or file of this name holds nothing that was written by hand.
pub open spec fn is_excluded_name(name: Seq<char>) -> bool {
    ||| name == ".git"@
    ||| name == "target"@
    ||| name == "node_modules"@
    ||| name == "dist"@
    ||| name == "build"@
    ||| name == "coverage"@
    ||| name == "vendor"@
}

/// Whether a part of a path is excluded.
pub open spec fn is_excluded_part(part: Part) -> bool {
    match part {
        Part::Name(name) => is_excluded_name(name),
        _ => false,
    }
}

/// Whether a path never counts: it goes through an excluded directory, or its file may hold a
/// secret.
pub open spec fn is_excluded(path: Seq<char>) -> bool {
    ||| exists|k: int|
        0 <= k < components(path).len() && is_excluded_part(#[trigger] components(path)[k])
    ||| file_name_of(path) matches Some(name) && (begins_with(name, ".env"@) || extension_of(path)
        == Some("pem"@) || extension_of(path) == Some("key"@))
}

fn excluded_name(name: &str) -> (r: bool)
    ensures
        r == is_excluded_name(name@),
{
    same_text(name, ".git") || same_text(name, "target") || same_text(name, "node_modules")
        || same_text(name, "dist") || same_text(name, "build") || same_text(name, "coverage")
        || same_text(name, "vendor")
}

/// Whether a path never counts.
pub fn is_excluded_path(path: &str) -> (r: bool)
    ensures
        r == is_excluded(path@),
{
    let parts = path_parts(path);
    let mut i: usize = 0;
    while i < parts.len()
        invariant
            i <= parts@.len(),
            part_views(parts@) == components(path@),
            forall|k: int| 0 <= k < i ==> !is_excluded_part(#[trigger] components(path@)[k]),
        decreases parts@.len() - i,
    {
        proof {
            assert(part_views(parts@)[i as int] == parts@[i as int]@);
        }
        if let PathPart::Name(name) = &parts[i] {
            if excluded_name(name.as_str()) {
                proof {
                    assert(is_excluded_part(components(path@)[i as int]));
                }
                return true;
            }
        }
        i += 1;
    }
    proof {
        assert(part_views(parts@).len() == parts@.len());
    }
    match file_name(path) {
        Some(name) => {
            if starts_with(name.as_str(), ".env") {
                return true;
            }
            match extension(path) {
                Some(ext) => same_text(ext.as_str(), "pem") || same_text(ext.as_str(), "key"),
                None => false,
            }
        },
        None => false,
    }
}

/// The patterns of the files that a search leaves out.
pub open spec fn excluded_patterns() -> Seq<Seq<char>> {
    seq![
        ".git/**"@,
        "**/.git/**"@,
        "target/**"@,
        "**/target/**"@,
        "node_modules/**"@,
        "**/node_modules/**"@,
        "dist/**"@,
        "**/dist/**"@,
        "build/**"@,
        "**/build/**"@,
        "coverage/**"@,
        "**/coverage/**"@,
        "vendor/**"@,
        "**/vendor/**"@,
        ".env*"@,
        "**/.env*"@,
        "*.pem"@,
        "*.key"@,
    ]
}

/// The patterns of the files that a search leaves out.
pub fn exclude_patterns() -> (out: Vec<String>)
    ensures
        texts(out@) == excluded_patterns(),
{
    let out: Vec<String> = vec![
        ".git/**".to_owned(),
        "**/.git/**".to_owned(),
        "target/**".to_owned(),
        "**/target/**".to_owned(),
        "node_modules/**".to_owned(),
        "**/node_modules/**".to_owned(),
        "dist/**".to_owned(),
        "**/dist/**".to_owned(),
        "build/**".to_owned(),
        "**/build/**".to_owned(),
        "coverage/**".to_owned(),
        "**/coverage/**".to_owned(),
        "vendor/**".to_owned(),
        "**/vendor/**".to_owned(),
        ".env*".to_owned(),
        "**/.env*".to_owned(),
        "*.pem".to_owned(),
        "*.key".to_owned(),
    ];
    proof {
        assert(texts(out@) =~= excluded_patterns());
    }
    out
}

// ---------------------------------------------------------------------------
// Search terms
// ---------------------------------------------------------------------------

/// The class of texts that are long enough to be searched for.
pub open spec fn searchable() -> spec_fn(Seq<char>) -> bool {
    |term: Seq<char>| byte_count(term) >= 3
}

/// The names of the files at the paths, without their extensions.
pub open spec fn stems_of(paths: Seq<Seq<char>>) -> Seq<Seq<char>>
    decreases paths.len(),
{
    if paths.len() == 0 {
        Seq::empty()
    } else {
        let before = stems_of(paths.drop_last());
        match file_stem_of(paths.last()) {
            Some(stem) => before.push(stem),
            None => before,
        }
    }
}

/// What is searched for in any case.
pub open spec fn fallback_terms() -> Seq<Seq<char>> {
    seq![
        "promptpilot"@,
        "prompt_pilot"@,
        "ctrl-x"@,
        "composer"@,
        "slash_command"@,
        "context"@,
    ]
}

/// What is searched for: the first ten, in dictionary order, of the names of the mentioned files,
/// the keywords, and what is searched for in any case.
pub open spec fn search_terms(
    mentioned_paths: Seq<Seq<char>>,
    keywords: Seq<Seq<char>>,
) -> Seq<Seq<char>> {
    first_of(
        sorted_texts(
            stems_of(mentioned_paths).filter(searchable()) + keywords.filter(searchable())
                + fallback_terms(),
        ),
        10,
    )
}

/// What is searched for.
pub fn file_search_terms(intent: &IntentBlock) -> (out: Vec<String>)
    ensures
        texts(out@) == search_terms(texts(intent.mentioned_paths@), texts(intent.keywords@)),
{
    let mut terms: Vec<String> = Vec::new();
    let mut i: usize = 0;
    let ghost paths = texts(intent.mentioned_paths@);
    proof {
        reveal(Seq::filter);
        assert(paths.take(0) =~= Seq::<Seq<char>>::empty());
        assert(texts(terms@) =~= Seq::<Seq<char>>::empty());
    }
    while i < intent.mentioned_paths.len()
        invariant
            i <= intent.mentioned_paths@.len(),
            paths == texts(intent.mentioned_paths@),
            texts(terms@) == stems_of(paths.take(i as int)).filter(searchable()),
        decreases intent.mentioned_paths@.len() - i,
    {
        broadcast use {lemma_texts_push, lemma_filter_push};

        proof {
            let next = paths.take(i + 1);
            assert(next.drop_last() =~= paths.take(i as int));
            assert(next.last() == intent.mentioned_paths@[i as int]@);
        }
        if let Some(stem) = file_stem(intent.mentioned_paths[i].as_str()) {
            if byte_len(stem.as_str()) >= 3 {
                terms.push(stem);
            }
        }
        i += 1;
    }
    let ghost stems = stems_of(paths).filter(searchable());
    let ghost keywords = texts(intent.keywords@);
    i = 0;
    proof {
        reveal(Seq::filter);
        assert(paths.take(paths.len() as int) =~= paths);
        assert(keywords.take(0) =~= Seq::<Seq<char>>::empty());
        assert(stems + keywords.take(0).filter(searchable()) =~= stems);
    }
    while i < intent.keywords.len()
        invariant
            i <= intent.keywords@.len(),
            keywords == texts(intent.keywords@),
            texts(terms@) == stems + keywords.take(i as int).filter(searchable()),
        decreases intent.keywords@.len() - i,
    {
        broadcast use {lemma_texts_push, lemma_filter_push};

        proof {
            lemma_take_push(keywords, i as int);
            let before = keywords.take(i as int).filter(searchable());
            assert((stems + before).push(keywords[i as int]) =~= stems + before.push(
                keywords[i as int],
            ));
        }
        if byte_len(intent.keywords[i].as_str()) >= 3 {
            terms.push(intent.keywords[i].clone());
        }
        i += 1;
    }
    let ghost found = texts(terms@);
    terms.push("promptpilot".to_owned());
    terms.push("prompt_pilot".to_owned());
    terms.push("ctrl-x".to_owned());
    terms.push("composer".to_owned());
    terms.push("slash_command".to_owned());
    terms.push("context".to_owned());
    proof {
        assert(keywords.take(keywords.len() as int) =~= keywords);
        assert(texts(terms@) =~= found + fallback_terms());
    }
    first_texts(&sort_texts(&terms), 10)
}

// ---------------------------------------------------------------------------
// Candidates
// ---------------------------------------------------------------------------

/// A file that may matter, and what speaks for it.
#[derive(Clone, Debug, PartialEq, Eq)]
pub struct Candidate {
    pub path: String,
    pub score: i32,
    pub evidence: Vec<String>,
}

/// The model of a [`Candidate`].
#[verifier::ext_equal]
pub struct Cand {
    pub path: Seq<char>,
    pub score: int,
    pub evidence: Seq<Seq<char>>,
}

impl View for Candidate {
    type V = Cand;

    open spec fn view(&self) -> Cand {
        Cand { path: self.path@, score: self.score as int, evidence: texts(self.evidence@) }
    }
}

/// The models of a list of candidates.
pub open spec fn cand_views(candidates: Seq<Candidate>) -> Seq<Cand> {
    Seq::new(candidates.len(), |i: int| candidates[i]@)
}

/// Something that speaks for a file.
#[verifier::ext_equal]
pub struct Hit {
    pub path: Seq<char>,
    pub score: int,
    pub evidence: Seq<char>,
}

/// The paths of the candidates.
pub open spec fn cand_paths(candidates: Seq<Cand>) -> Seq<Seq<char>> {
    Seq::new(candidates.len(), |i: int| candidates[i].path)
}

/// The candidates with one hit more: it raises the score of its file, and its evidence is noted
/// once.
pub open spec fn with_hit(candidates: Seq<Cand>, hit: Hit) -> Seq<Cand> {
    let k = path_place(cand_paths(candidates), hit.path);
    if k < candidates.len() {
        candidates.update(
            k,
            Cand {
                path: candidates[k].path,
                score: candidates[k].score + hit.score,
                evidence: with_new(candidates[k].evidence, seq![hit.evidence]),
            },
        )
    } else {
        candidates.push(Cand { path: hit.path, score: hit.score, evidence: seq![hit.evidence] })
    }
}

/// The candidates that the hits make, each path once.
pub open spec fn gathered(hits: Seq<Hit>) -> Seq<Cand>
    decreases hits.len(),
{
    if hits.len() == 0 {
        Seq::empty()
    } else {
        with_hit(gathered(hits.drop_last()), hits.last())
    }
}

/// The scores of all hits on a path together.
pub open spec fn total_score(hits: Seq<Hit>, path: Seq<char>) -> int
    decreases hits.len(),
{
    if hits.len() == 0 {
        0
    } else {
        total_score(hits.drop_last(), path) + if same_path(hits.last().path, path) {
            hits.last().score
        } else {
            0
        }
    }
}

/// No two candidates are at the same path.
pub open spec fn distinct_candidates(candidates: Seq<Cand>) -> bool {
    forall|i: int, j: int|
        0 <= i < j < candidates.len() ==> !same_path(
            #[trigger] candidates[i].path,
            #[trigger] candidates[j].path,
        )
}

/// Each path with a hit has exactly one candidate, whose score is that of all its hits together.
pub proof fn law_gathered(hits: Seq<Hit>)
    ensures
        distinct_candidates(gathered(hits)),
        forall|k: int|
            0 <= k < gathered(hits).len() ==> (#[trigger] gathered(hits)[k]).score == total_score(
                hits,
                gathered(hits)[k].path,
            ),
        forall|i: int|
            0 <= i < hits.len() ==> path_place(
                cand_paths(gathered(hits)),
                (#[trigger] hits[i]).path,
            ) < gathered(hits).len(),
    decreases hits.len(),
{
    if hits.len() > 0 {
        let init = hits.drop_last();
        let hit = hits.last();
        let before = gathered(init);
        let after = gathered(hits);
        let k = path_place(cand_paths(before), hit.path);
        law_gathered(init);
        lemma_path_place(cand_paths(before), hit.path);
        assert forall|i: int| 0 <= i < before.len() implies after[i].path == before[i].path by {}
        assert forall|i: int, j: int| 0 <= i < j < after.len() implies !same_path(
            #[trigger] after[i].path,
            #[trigger] after[j].path,
        ) by {
            if j == before.len() {
                assert(cand_paths(before)[i] == before[i].path);
            }
        }
        assert forall|i: int| 0 <= i < after.len() implies (#[trigger] after[i]).score
            == total_score(hits, after[i].path) by {
            if i < before.len() {
                assert(before[i].score == total_score(init, before[i].path));
                assert(cand_paths(before)[i] == before[i].path);
                if i < k {
                    assert(!same_path(before[i].path, hit.path));
                } else if i > k {
                    assert(cand_paths(before)[k] == before[k].path);
                    assert(!same_path(before[k].path, before[i].path));
                }
            } else {
                lemma_unseen(init, hit.path);
            }
        }
        assert forall|i: int| 0 <= i < hits.len() implies path_place(
            cand_paths(after),
            (#[trigger] hits[i]).path,
        ) < after.len() by {
            let path = hits[i].path;
            lemma_path_place(cand_paths(after), path);
            if i < init.len() {
                assert(init[i] == hits[i]);
                let m = path_place(cand_paths(before), path);
                lemma_path_place(cand_paths(before), path);
                assert(cand_paths(after)[m] == cand_paths(before)[m]);
            } else {
                assert(cand_paths(after)[k] == after[k].path);
                if k < before.len() {
                    assert(cand_paths(before)[k] == before[k].path);
                }
                assert(same_path(cand_paths(after)[k], path));
            }
        }
    }
}

proof fn lemma_unseen(hits: Seq<Hit>, path: Seq<char>)
    requires
        path_place(cand_paths(gathered(hits)), path) == gathered(hits).len(),
    ensures
        total_score(hits, path) == 0,
    decreases hits.len(),
{
    if hits.len() > 0 {
        let init = hits.drop_last();
        let hit = hits.last();
        let before = gathered(init);
        let after = gathered(hits);
        let k = path_place(cand_paths(before), hit.path);
        lemma_path_place(cand_paths(before), hit.path);
        lemma_path_place(cand_paths(before), path);
        lemma_path_place(cand_paths(after), path);
        let m = path_place(cand_paths(before), path);
        if m < before.len() {
            assert(cand_paths(after)[m] == cand_paths(before)[m]);
        }
        lemma_unseen(init, path);
        assert(cand_paths(after)[k] == after[k].path);
        if k < before.len() {
            assert(cand_paths(before)[k] == before[k].path);
        }
        assert(same_path(after[k].path, hit.path));
    }
}

proof fn lemma_score_bound(hits: Seq<Hit>, bound: int)
    requires
        forall|i: int| 0 <= i < hits.len() ==> 0 <= (#[trigger] hits[i]).score <= bound,
    ensures
        forall|k: int|
            0 <= k < gathered(hits).len() ==> 0 <= (#[trigger] gathered(hits)[k]).score <= bound
                * hits.len(),
    decreases hits.len(),
{
    if hits.len() > 0 {
        let init = hits.drop_last();
        let n = init.len() as int;
        assert forall|i: int| 0 <= i < init.len() implies 0 <= (#[trigger] init[i]).score
            <= bound by {
            assert(init[i] == hits[i]);
        }
        lemma_score_bound(init, bound);
        lemma_path_place(cand_paths(gathered(init)), hits.last().path);
        assert(bound * (n + 1) == bound * n + bound) by (nonlinear_arith);
        assert(0 <= hits[hits.len() - 1].score <= bound);
        assert(0 <= bound * n) by (nonlinear_arith)
            requires
                0 <= bound,
                0 <= n,
        ;
    }
}

fn find_candidate(candidates: &Vec<Candidate>, path: &str) -> (k: usize)
    ensures
        k == path_place(cand_paths(cand_views(candidates@)), path@),
        k <= candidates@.len(),
{
    let mut k: usize = 0;
    while k < candidates.len() && !paths_equal(candidates[k].path.as_str(), path)
        invariant
            k <= candidates@.len(),
            forall|i: int| 0 <= i < k ==> !same_path(#[trigger] candidates@[i].path@, path@),
        ensures
            k < candidates@.len() ==> same_path(candidates@[k as int].path@, path@),
        decreases candidates@.len() - k,
    {
        k += 1;
    }
    proof {
        let paths = cand_paths(cand_views(candidates@));
        assert forall|i: int| 0 <= i < k implies !same_path(#[trigger] paths[i], path@) by {
            assert(paths[i] == candidates@[i].path@);
        }
        lemma_path_place_is(paths, path@, k as int);
    }
    k
}

fn copy_candidate(candidate: &Candidate) -> (r: Candidate)
    ensures
        r@ == candidate@,
{
    Candidate {
        path: candidate.path.clone(),
        score: candidate.score,
        evidence: first_texts(&candidate.evidence, candidate.evidence.len()),
    }
}

/// Counts one hit more.
pub fn add_candidate(
    candidates: &mut Vec<Candidate>,
    path: &str,
    score: i32,
    evidence: &str,
)
    requires
        ({
            let k = path_place(cand_paths(cand_views(old(candidates)@)), path@);
            k < old(candidates)@.len() ==> i32::MIN <= old(candidates)@[k].score + score
                <= i32::MAX
        }),
    ensures
        cand_views(final(candidates)@) == with_hit(
            cand_views(old(candidates)@),
            (Hit { path: path@, score: score as int, evidence: evidence@ }),
        ),
{
    broadcast use lemma_texts_push;

    let ghost before = cand_views(candidates@);
    let ghost hit = Hit { path: path@, score: score as int, evidence: evidence@ };
    let k: usize = find_candidate(candidates, path);
    if k < candidates.len() {
        let mut candidate = copy_candidate(&candidates[k]);
        proof {
            assert(before[k as int] == candidates@[k as int]@);
            assert(candidate@.score == candidates@[k as int]@.score);
            let more = seq![evidence@];
            assert(more.drop_last() =~= Seq::<Seq<char>>::empty());
            assert(with_new(candidate@.evidence, more.drop_last()) == candidate@.evidence);
        }
        candidate.score += score;
        if !list_contains(&candidate.evidence, evidence) {
            candidate.evidence.push(evidence.to_owned());
        }
        candidates.set(k, candidate);
    } else {
        let mut notes: Vec<String> = Vec::new();
        notes.push(evidence.to_owned());
        candidates.push(Candidate { path: path.to_owned(), score, evidence: notes });
        proof {
            assert(texts(notes@) =~= seq![evidence@]);
        }
    }
    proof {
        assert(cand_views(candidates@) =~= with_hit(before, hit));
    }
}

// ---------------------------------------------------------------------------
// Ranking
// ---------------------------------------------------------------------------

/// Whether one candidate is ranked before another: by a higher score, then by its path.
pub open spec fn rank_less(a: Cand, b: Cand) -> bool {
    ||| a.score > b.score
    ||| a.score == b.score && text_less(path_text(a.path), path_text(b.path))
    ||| a.score == b.score && path_text(a.path) == path_text(b.path) && path_less(a.path, b.path)
}

/// The order of candidates.
pub open spec fn rank_order() -> spec_fn(Cand, Cand) -> bool {
    |a: Cand, b: Cand| rank_less(a, b)
}

/// The candidates, the best first.
pub open spec fn ranked(candidates: Seq<Cand>) -> Seq<Cand> {
    sorted_set(candidates, rank_order())
}

proof fn lemma_rank_order()
    ensures
        is_strict_order(rank_order()),
        forall|a: Cand, b: Cand|
            !#[trigger] rank_less(a, b) && !rank_less(b, a) ==> same_path(a.path, b.path),
{
    law_text_order();
    law_path_order();
    assert forall|a: Cand| !#[trigger] rank_order()(a, a) by {
        assert(!text_order()(path_text(a.path), path_text(a.path)));
        assert(!path_order()(a.path, a.path));
    }
    assert forall|a: Cand, b: Cand, c: Cand| #[trigger]
        rank_order()(a, b) && #[trigger] rank_order()(b, c) implies rank_order()(a, c) by {
        let (x, y, z) = (path_text(a.path), path_text(b.path), path_text(c.path));
        if text_less(x, y) && text_less(y, z) {
            assert(text_order()(x, y) && text_order()(y, z));
            assert(text_order()(x, z));
        }
        if path_less(a.path, b.path) && path_less(b.path, c.path) {
            assert(path_order()(a.path, b.path) && path_order()(b.path, c.path));
            assert(path_order()(a.path, c.path));
        }
    }
    assert forall|a: Cand, b: Cand| !#[trigger] rank_less(a, b) && !rank_less(b, a) implies same_path(
        a.path,
        b.path,
    ) by {
        let (x, y) = (path_text(a.path), path_text(b.path));
        assert(x == y || text_order()(x, y) || text_order()(y, x));
        assert(!path_less(a.path, b.path) && !path_less(b.path, a.path));
    }
}

/// The ranking of the files that the hits speak for: they stand in the order of the ranking, are
/// all of the candidates and no others, and of two paths the one with the higher score of all its
/// hits together comes first.
pub proof fn law_ranked(hits: Seq<Hit>)
    ensures
        increasing(ranked(gathered(hits)), rank_order()),
        forall|c: Cand| #[trigger]
            ranked(gathered(hits)).contains(c) <==> gathered(hits).contains(c),
        forall|i: int, j: int|
            0 <= i < ranked(gathered(hits)).len() && 0 <= j < ranked(gathered(hits)).len()
                && total_score(hits, (#[trigger] ranked(gathered(hits))[i]).path) > total_score(
                hits,
                (#[trigger] ranked(gathered(hits))[j]).path,
            ) ==> i < j,
{
    let all = gathered(hits);
    let r = ranked(all);
    lemma_rank_order();
    law_gathered(hits);
    law_sorted_set(all, rank_order());
    assert forall|c: Cand| all.contains(c) implies #[trigger] r.contains(c) by {
        let d = choose|d: Cand| #[trigger]
            sorted_set(all, rank_order()).contains(d) && !rank_order()(c, d) && !rank_order()(
                d,
                c,
            );
        assert(!rank_less(c, d) && !rank_less(d, c));
        assert(same_path(c.path, d.path));
        assert(all.contains(d));
        let m = choose|m: int| 0 <= m < all.len() && all[m] == c;
        let n = choose|n: int| 0 <= n < all.len() && all[n] == d;
        if m < n {
            assert(!same_path(all[m].path, all[n].path));
        } else if n < m {
            assert(!same_path(all[n].path, all[m].path));
        }
    }
    assert forall|i: int, j: int|
        0 <= i < r.len() && 0 <= j < r.len() && total_score(hits, (#[trigger] r[i]).path)
            > total_score(hits, (#[trigger] r[j]).path) implies i < j by {
        assert(r.contains(r[i]));
        assert(r.contains(r[j]));
        let m = choose|m: int| 0 <= m < all.len() && all[m] == r[i];
        let n = choose|n: int| 0 <= n < all.len() && all[n] == r[j];
        assert(all[m].score == total_score(hits, all[m].path));
        assert(all[n].score == total_score(hits, all[n].path));
        if j < i {
            assert(rank_order()(r[j], r[i]));
        }
    }
}

fn ranks_before(a: &Candidate, b: &Candidate) -> (r: bool)
    ensures
        r == rank_less(a@, b@),
{
    if a.score != b.score {
        return a.score > b.score;
    }
    let x = path_string(a.path.as_str());
    let y = path_string(b.path.as_str());
    proof {
        law_text_order();
        assert(!text_order()(x@, x@));
    }
    if same_text(x.as_str(), y.as_str()) {
        path_before(a.path.as_str(), b.path.as_str())
    } else {
        text_before(x.as_str(), y.as_str())
    }
}

fn insert_ranked(v: &mut Vec<Candidate>, candidate: Candidate)
    ensures
        cand_views(final(v)@) == insert_ordered(cand_views(old(v)@), candidate@, rank_order()),
{
    let ghost before = cand_views(v@);
    let mut i: usize = v.len();
    while i > 0 && ranks_before(&candidate, &v[i - 1])
        invariant
            i <= v@.len(),
            before == cand_views(v@),
            forall|k: int| i <= k < before.len() ==> rank_less(candidate@, #[trigger] before[k]),
        ensures
            i > 0 ==> !rank_less(candidate@, before[i - 1]),
        decreases i,
    {
        i -= 1;
    }
    proof {
        lemma_insert_at(before, candidate@, rank_order(), i as int);
    }
    if i > 0 && !ranks_before(&v[i - 1], &candidate) {
        return ;
    }
    let ghost x = candidate@;
    v.insert(i, candidate);
    proof {
        assert(cand_views(v@) =~= before.insert(i as int, x));
    }
}

fn rank_candidates(candidates: &Vec<Candidate>) -> (out: Vec<Candidate>)
    ensures
        cand_views(out@) == ranked(cand_views(candidates@)),
{
    let mut out: Vec<Candidate> = Vec::new();
    let ghost all = cand_views(candidates@);
    let mut i: usize = 0;
    proof {
        assert(cand_views(out@) =~= Seq::<Cand>::empty());
        assert(all.take(0) =~= Seq::<Cand>::empty());
    }
    while i < candidates.len()
        invariant
            i <= candidates@.len(),
            all == cand_views(candidates@),
            cand_views(out@) == ranked(all.take(i as int)),
        decreases candidates@.len() - i,
    {
        proof {
            assert(all.take(i + 1).drop_last() =~= all.take(i as int));
            assert(all.take(i + 1).last() == candidates@[i as int]@);
        }
        insert_ranked(&mut out, copy_candidate(&candidates[i]));
        i += 1;
    }
    proof {
        assert(all.take(candidates@.len() as int) =~= all);
    }
    out
}

/// A candidate as a file of the context pack: its first evidence is the reason, and its score in
/// hundredths, from none to full, is the confidence.
pub open spec fn file_of(candidate: Cand, fallback: Seq<char>) -> RelevantFile {
    RelevantFile {
        path: candidate.path,
        reason: if candidate.evidence.len() > 0 {
            candidate.evidence[0]
        } else {
            fallback
        },
        confidence: if candidate.score < 0 {
            0
        } else if candidate.score > 100 {
            100
        } else {
            candidate.score
        },
        evidence: candidate.evidence,
    }
}

/// The files of the best candidates, the best first.
pub open spec fn best_files(candidates: Seq<Cand>, fallback: Seq<char>) -> Seq<RelevantFile> {
    let best = first_of(ranked(candidates), MAX_RELEVANT_FILES as int);
    Seq::new(best.len(), |i: int| file_of(best[i], fallback))
}

/// At most twelve files are kept, and none with more than full confidence.
pub proof fn law_best_files(candidates: Seq<Cand>, fallback: Seq<char>)
    ensures
        best_files(candidates, fallback).len() <= MAX_RELEVANT_FILES,
        forall|i: int|
            0 <= i < best_files(candidates, fallback).len() ==> 0 <= (#[trigger] best_files(
                candidates,
                fallback,
            )[i]).confidence <= 100,
{
}

fn files_of(candidates: &Vec<Candidate>, fallback: &str) -> (out: Vec<RelevantFileBlock>)
    ensures
        file_views(out@) == best_files(cand_views(candidates@), fallback@),
{
    let all = rank_candidates(candidates);
    let ghost files = best_files(cand_views(candidates@), fallback@);
    let n: usize = if all.len() < MAX_RELEVANT_FILES {
        all.len()
    } else {
        MAX_RELEVANT_FILES
    };
    let mut out: Vec<RelevantFileBlock> = Vec::new();
    let mut i: usize = 0;
    proof {
        assert(cand_views(all@).len() == all@.len());
        assert(file_views(out@) =~= files.take(0));
    }
    while i < n
        invariant
            i <= n <= all@.len(),
            n == files.len(),
            cand_views(all@) == ranked(cand_views(candidates@)),
            files == best_files(cand_views(candidates@), fallback@),
            file_views(out@) == files.take(i as int),
        decreases n - i,
    {
        let ghost before = out@;
        let candidate = copy_candidate(&all[i]);
        proof {
            assert(cand_views(all@)[i as int] == all@[i as int]@);
            assert(texts(candidate.evidence@).len() == candidate.evidence@.len());
        }
        let reason = if candidate.evidence.len() > 0 {
            candidate.evidence[0].clone()
        } else {
            fallback.to_owned()
        };
        let confidence: u8 = if candidate.score < 0 {
            0
        } else if candidate.score > 100 {
            100
        } else {
            candidate.score as u8
        };
        let file = RelevantFileBlock {
            path: candidate.path,
            reason,
            confidence,
            evidence: candidate.evidence,
        };
        out.push(file);
        proof {
            assert(file@ == files[i as int]);
            assert(file_views(out@) =~= file_views(before).push(file@));
            lemma_take_push(files, i as int);
        }
        i += 1;
    }
    proof {
        assert(files.take(n as int) =~= files);
    }
    out
}

// ---------------------------------------------------------------------------
// Hits of searches
// ---------------------------------------------------------------------------

/// One match of a file search.
#[derive(Clone, Debug, PartialEq, Eq)]
pub struct FileMatch {
    pub path: String,
    /// Whether the match is a file, not a directory.
    pub is_file: bool,
}

/// The hits of one search: its matches that are files and count.
pub open spec fn match_hits(
    repo_root: Seq<char>,
    matches: Seq<FileMatch>,
    score: int,
    evidence: Seq<char>,
) -> Seq<Hit>
    decreases matches.len(),
{
    if matches.len() == 0 {
        Seq::empty()
    } else {
        let before = match_hits(repo_root, matches.drop_last(), score, evidence);
        let path = repo_path(matches.last().path@, repo_root);
        if matches.last().is_file && !is_excluded(path) {
            before.push(Hit { path, score, evidence })
        } else {
            before
        }
    }
}

/// How many matches the searches have found together.
pub open spec fn match_count(searches: Seq<Vec<FileMatch>>) -> nat
    decreases searches.len(),
{
    if searches.len() == 0 {
        0
    } else {
        match_count(searches.drop_last()) + searches.last()@.len()
    }
}

proof fn lemma_match_hits(
    repo_root: Seq<char>,
    matches: Seq<FileMatch>,
    score: int,
    evidence: Seq<char>,
)
    ensures
        match_hits(repo_root, matches, score, evidence).len() <= matches.len(),
        forall|i: int|
            0 <= i < match_hits(repo_root, matches, score, evidence).len() ==> (
            #[trigger] match_hits(repo_root, matches, score, evidence)[i]).score == score,
    decreases matches.len(),
{
    if matches.len() > 0 {
        lemma_match_hits(repo_root, matches.drop_last(), score, evidence);
    }
}

proof fn lemma_match_count(searches: Seq<Vec<FileMatch>>, n: int)
    requires
        0 <= n < searches.len(),
    ensures
        match_count(searches.take(n + 1)) == match_count(searches.take(n)) + searches[n]@.len(),
        match_count(searches.take(n + 1)) <= match_count(searches),
    decreases searches.len(),
{
    assert(searches.take(n + 1).drop_last() =~= searches.take(n));
    if n + 1 == searches.len() {
        assert(searches.take(n + 1) =~= searches);
    } else {
        lemma_match_count(searches.drop_last(), n);
        assert(searches.drop_last().take(n + 1) =~= searches.take(n + 1));
    }
}

/// Whether each hit has a score that may be counted.
pub open spec fn small_scores(hits: Seq<Hit>) -> bool {
    forall|i: int| 0 <= i < hits.len() ==> 0 <= (#[trigger] hits[i]).score <= 100
}

proof fn lemma_score_fits(hits: Seq<Hit>, path: Seq<char>, score: int)
    requires
        small_scores(hits),
        hits.len() < MAX_HITS,
        0 <= score <= 100,
    ensures
        ({
            let k = path_place(cand_paths(gathered(hits)), path);
            k < gathered(hits).len() ==> 0 <= gathered(hits)[k].score + score <= i32::MAX
        }),
{
    lemma_score_bound(hits, 100);
    lemma_path_place(cand_paths(gathered(hits)), path);
}

proof fn lemma_gathered_push(hits: Seq<Hit>, hit: Hit)
    ensures
        gathered(hits.push(hit)) == with_hit(gathered(hits), hit),
{
    assert(hits.push(hit).drop_last() =~= hits);
}

fn add_matches(
    candidates: &mut Vec<Candidate>,
    repo_root: &str,
    matches: &Vec<FileMatch>,
    score: i32,
    evidence: &str,
    Ghost(hits): Ghost<Seq<Hit>>,
)
    requires
        cand_views(old(candidates)@) == gathered(hits),
        small_scores(hits),
        0 <= score <= 100,
        hits.len() + matches@.len() <= MAX_HITS,
    ensures
        cand_views(final(candidates)@) == gathered(
            hits + match_hits(repo_root@, matches@, score as int, evidence@),
        ),
        small_scores(hits + match_hits(repo_root@, matches@, score as int, evidence@)),
{
    let mut i: usize = 0;
    proof {
        assert(matches@.take(0) =~= Seq::<FileMatch>::empty());
        assert(hits + match_hits(repo_root@, matches@.take(0), score as int, evidence@) =~= hits);
    }
    while i < matches.len()
        invariant
            i <= matches@.len(),
            small_scores(hits),
            0 <= score <= 100,
            hits.len() + matches@.len() <= MAX_HITS,
            cand_views(candidates@) == gathered(
                hits + match_hits(repo_root@, matches@.take(i as int), score as int, evidence@),
            ),
        decreases matches@.len() - i,
    {
        let ghost found = match_hits(
            repo_root@,
            matches@.take(i as int),
            score as int,
            evidence@,
        );
        proof {
            assert(matches@.take(i + 1).drop_last() =~= matches@.take(i as int));
            lemma_match_hits(repo_root@, matches@.take(i as int), score as int, evidence@);
        }
        if matches[i].is_file {
            let path = normalize_repo_path(matches[i].path.as_str(), repo_root);
            if !is_excluded_path(path.as_str()) {
                proof {
                    let hit = Hit { path: path@, score: score as int, evidence: evidence@ };
                    assert(small_scores(hits + found));
                    lemma_score_fits(hits + found, path@, score as int);
                    lemma_gathered_push(hits + found, hit);
                    assert((hits + found).push(hit) =~= hits + found.push(hit));
                    let k = path_place(cand_paths(cand_views(candidates@)), path@);
                    lemma_path_place(cand_paths(cand_views(candidates@)), path@);
                    if k < candidates@.len() {
                        assert(cand_views(candidates@)[k].score == candidates@[k].score);
                    }
                }
                add_candidate(candidates, path.as_str(), score, evidence);
            }
        }
        i += 1;
    }
    proof {
        assert(matches@.take(matches@.len() as int) =~= matches@);
        lemma_match_hits(repo_root@, matches@, score as int, evidence@);
    }
}

// ---------------------------------------------------------------------------
// Files for queries
// ---------------------------------------------------------------------------

/// What speaks for a file that a query has found.
pub open spec fn query_evidence(query: Seq<char>) -> Seq<char> {
    "ACE agent search match for `"@ + query + "`"@
}

/// The hits of the first `n` queries; a query of fewer than two bytes counts for nothing.
pub open spec fn query_hits(
    repo_root: Seq<char>,
    queries: Seq<Seq<char>>,
    searches: Seq<Vec<FileMatch>>,
    n: int,
) -> Seq<Hit>
    decreases n,
{
    if n <= 0 {
        Seq::empty()
    } else {
        let before = query_hits(repo_root, queries, searches, n - 1);
        let query = trimmed(queries[n - 1]);
        if byte_count(query) < 2 {
            before
        } else {
            before + match_hits(repo_root, searches[n - 1]@, 25, query_evidence(query))
        }
    }
}

/// The files that the queries have found.
pub open spec fn files_for_queries(
    repo_root: Seq<char>,
    queries: Seq<Seq<char>>,
    searches: Seq<Vec<FileMatch>>,
) -> Seq<RelevantFile> {
    best_files(
        gathered(query_hits(repo_root, queries, searches, queries.len() as int)),
        "ACE agent search candidate"@,
    )
}

fn between_ticks(before: &str, text: &str) -> (r: String)
    ensures
        r@ == before@ + text@ + "`"@,
{
    let mut out = before.to_owned();
    out.append(text);
    out.append("`");
    out
}

proof fn lemma_query_hits(
    repo_root: Seq<char>,
    queries: Seq<Seq<char>>,
    searches: Seq<Vec<FileMatch>>,
    n: int,
)
    requires
        0 <= n <= searches.len(),
    ensures
        query_hits(repo_root, queries, searches, n).len() <= match_count(searches.take(n)),
        small_scores(query_hits(repo_root, queries, searches, n)),
    decreases n,
{
    if n > 0 {
        lemma_query_hits(repo_root, queries, searches, n - 1);
        lemma_match_count(searches, n - 1);
        lemma_match_hits(
            repo_root,
            searches[n - 1]@,
            25,
            query_evidence(trimmed(queries[n - 1])),
        );
    }
}

/// The files that the queries have found, the best first; `searches` holds the matches of each
/// query.
pub fn retrieve_relevant_files_for_queries(
    repo_root: &str,
    queries: &Vec<String>,
    searches: &Vec<Vec<FileMatch>>,
) -> (out: Vec<RelevantFileBlock>)
    requires
        queries@.len() == searches@.len(),
        match_count(searches@) <= MAX_HITS,
    ensures
        file_views(out@) == files_for_queries(repo_root@, texts(queries@), searches@),
{
    let mut candidates: Vec<Candidate> = Vec::new();
    let mut i: usize = 0;
    proof {
        assert(cand_views(candidates@) =~= Seq::<Cand>::empty());
        assert(texts(queries@).len() == queries@.len());
    }
    while i < queries.len()
        invariant
            i <= queries@.len() == searches@.len(),
            match_count(searches@) <= MAX_HITS,
            cand_views(candidates@) == gathered(
                query_hits(repo_root@, texts(queries@), searches@, i as int),
            ),
        decreases queries@.len() - i,
    {
        let query = trim(queries[i].as_str());
        let ghost before = query_hits(repo_root@, texts(queries@), searches@, i as int);
        proof {
            assert(texts(queries@)[i as int] == queries@[i as int]@);
            lemma_query_hits(repo_root@, texts(queries@), searches@, i as int);
            lemma_match_count(searches@, i as int);
        }
        if byte_len(query) >= 2 {
            let evidence = between_ticks("ACE agent search match for `", query);
            add_matches(
                &mut candidates,
                repo_root,
                &searches[i],
                25,
                evidence.as_str(),
                Ghost(before),
            );
        }
        i += 1;
    }
    files_of(&candidates, "ACE agent search candidate")
}

// ---------------------------------------------------------------------------
// Files for a prompt
// ---------------------------------------------------------------------------

/// Where the paths that the prompt mentions would lie.
pub fn mentioned_locations(repo_root: &str, intent: &IntentBlock) -> (out: Vec<String>)
    ensures
        texts(out@) == Seq::new(
            intent.mentioned_paths@.len(),
            |i: int|
                joined_path(
                    repo_root@,
                    repo_path(texts(intent.mentioned_paths@)[i], repo_root@),
                ),
        ),
{
    let ghost all = Seq::new(
        intent.mentioned_paths@.len(),
        |i: int|
            joined_path(repo_root@, repo_path(texts(intent.mentioned_paths@)[i], repo_root@)),
    );
    let mut out: Vec<String> = Vec::new();
    let mut i: usize = 0;
    proof {
        assert(texts(out@) =~= all.take(0));
    }
    while i < intent.mentioned_paths.len()
        invariant
            i <= intent.mentioned_paths@.len(),
            all.len() == intent.mentioned_paths@.len(),
            forall|k: int|
                0 <= k < all.len() ==> #[trigger] all[k] == joined_path(
                    repo_root@,
                    repo_path(intent.mentioned_paths@[k]@, repo_root@),
                ),
            texts(out@) == all.take(i as int),
        decreases intent.mentioned_paths@.len() - i,
    {
        broadcast use lemma_texts_push;

        let path = normalize_repo_path(intent.mentioned_paths[i].as_str(), repo_root);
        out.push(join_path(repo_root, path.as_str()));
        proof {
            lemma_take_push(all, i as int);
        }
        i += 1;
    }
    proof {
        assert(all.take(all.len() as int) =~= all);
    }
    out
}

/// The hits of the first `n` mentioned paths: those that exist and count.
pub open spec fn mention_hits(
    repo_root: Seq<char>,
    paths: Seq<Seq<char>>,
    exist: Seq<bool>,
    n: int,
) -> Seq<Hit>
    decreases n,
{
    if n <= 0 {
        Seq::empty()
    } else {
        let before = mention_hits(repo_root, paths, exist, n - 1);
        let path = repo_path(paths[n - 1], repo_root);
        if !is_excluded(path) && exist[n - 1] {
            before.push(
                Hit { path, score: 100, evidence: "explicitly mentioned by the user"@ },
            )
        } else {
            before
        }
    }
}

/// The warning about a mentioned path that does not exist.
pub open spec fn missing_path_warning(path: Seq<char>) -> Seq<char> {
    "Mentioned path `"@ + path + "` does not exist in the project."@
}

/// The warnings about the first `n` mentioned paths: those that count and do not exist.
pub open spec fn mention_warnings(
    repo_root: Seq<char>,
    paths: Seq<Seq<char>>,
    exist: Seq<bool>,
    n: int,
) -> Seq<Seq<char>>
    decreases n,
{
    if n <= 0 {
        Seq::empty()
    } else {
        let before = mention_warnings(repo_root, paths, exist, n - 1);
        let path = repo_path(paths[n - 1], repo_root);
        if !is_excluded(path) && !exist[n - 1] {
            before.push(missing_path_warning(path))
        } else {
            before
        }
    }
}

/// The hits of the first `n` changed files.
pub open spec fn change_hits(repo_root: Seq<char>, paths: Seq<Seq<char>>, n: int) -> Seq<Hit>
    decreases n,
{
    if n <= 0 {
        Seq::empty()
    } else {
        let before = change_hits(repo_root, paths, n - 1);
        let path = repo_path(paths[n - 1], repo_root);
        if !is_excluded(path) {
            before.push(
                Hit { path, score: 40, evidence: "changed in the current git worktree"@ },
            )
        } else {
            before
        }
    }
}

/// What speaks for a file that a search term has found.
pub open spec fn term_evidence(term: Seq<char>) -> Seq<char> {
    "file-search match for `"@ + term + "`"@
}

/// The hits of the searches for the first `n` terms.
pub open spec fn term_hits(
    repo_root: Seq<char>,
    terms: Seq<Seq<char>>,
    searches: Seq<Vec<FileMatch>>,
    n: int,
) -> Seq<Hit>
    decreases n,
{
    if n <= 0 {
        Seq::empty()
    } else {
        term_hits(repo_root, terms, searches, n - 1) + match_hits(
            repo_root,
            searches[n - 1]@,
            20,
            term_evidence(terms[n - 1]),
        )
    }
}

/// All hits for a prompt: mentioned paths, changed files, matches of searches.
pub open spec fn prompt_hits(
    repo_root: Seq<char>,
    mentioned: Seq<Seq<char>>,
    exist: Seq<bool>,
    changed: Seq<Seq<char>>,
    terms: Seq<Seq<char>>,
    searches: Seq<Vec<FileMatch>>,
) -> Seq<Hit> {
    mention_hits(repo_root, mentioned, exist, mentioned.len() as int) + change_hits(
        repo_root,
        changed,
        changed.len() as int,
    ) + term_hits(repo_root, terms, searches, terms.len() as int)
}

/// The messages of the warnings.
pub open spec fn warning_texts(warnings: Seq<ContextWarning>) -> Seq<Seq<char>> {
    Seq::new(warnings.len(), |i: int| warnings[i].message@)
}

proof fn lemma_mention_hits(
    repo_root: Seq<char>,
    paths: Seq<Seq<char>>,
    exist: Seq<bool>,
    n: int,
)
    requires
        0 <= n,
    ensures
        mention_hits(repo_root, paths, exist, n).len() <= n,
        small_scores(mention_hits(repo_root, paths, exist, n)),
    decreases n,
{
    if n > 0 {
        lemma_mention_hits(repo_root, paths, exist, n - 1);
    }
}

proof fn lemma_change_hits(repo_root: Seq<char>, paths: Seq<Seq<char>>, n: int)
    requires
        0 <= n,
    ensures
        change_hits(repo_root, paths, n).len() <= n,
        small_scores(change_hits(repo_root, paths, n)),
    decreases n,
{
    if n > 0 {
        lemma_change_hits(repo_root, paths, n - 1);
    }
}

proof fn lemma_term_hits(
    repo_root: Seq<char>,
    terms: Seq<Seq<char>>,
    searches: Seq<Vec<FileMatch>>,
    n: int,
)
    requires
        0 <= n <= searches.len(),
    ensures
        term_hits(repo_root, terms, searches, n).len() <= match_count(searches.take(n)),
        small_scores(term_hits(repo_root, terms, searches, n)),
    decreases n,
{
    if n > 0 {
        lemma_term_hits(repo_root, terms, searches, n - 1);
        lemma_match_count(searches, n - 1);
        lemma_match_hits(repo_root, searches[n - 1]@, 20, term_evidence(terms[n - 1]));
    }
}

fn count_hit(
    candidates: &mut Vec<Candidate>,
    path: &str,
    score: i32,
    evidence: &str,
    Ghost(hits): Ghost<Seq<Hit>>,
)
    requires
        cand_views(old(candidates)@) == gathered(hits),
        small_scores(hits),
        0 <= score <= 100,
        hits.len() < MAX_HITS,
    ensures
        cand_views(final(candidates)@) == gathered(
            hits.push((Hit { path: path@, score: score as int, evidence: evidence@ })),
        ),
{
    proof {
        let hit = Hit { path: path@, score: score as int, evidence: evidence@ };
        lemma_score_fits(hits, path@, score as int);
        lemma_gathered_push(hits, hit);
        let k = path_place(cand_paths(cand_views(candidates@)), path@);
        lemma_path_place(cand_paths(cand_views(candidates@)), path@);
        if k < candidates@.len() {
            assert(cand_views(candidates@)[k].score == candidates@[k].score);
        }
    }
    add_candidate(candidates, path, score, evidence);
}

fn count_mentions(
    candidates: &mut Vec<Candidate>,
    warnings: &mut Vec<ContextWarning>,
    repo_root: &str,
    paths: &Vec<String>,
    exist: &Vec<bool>,
)
    requires
        old(candidates)@.len() == 0,
        old(warnings)@.len() == 0,
        paths@.len() == exist@.len(),
        paths@.len() <= MAX_HITS,
    ensures
        cand_views(final(candidates)@) == gathered(
            mention_hits(repo_root@, texts(paths@), exist@, paths@.len() as int),
        ),
        warning_texts(final(warnings)@) == mention_warnings(
            repo_root@,
            texts(paths@),
            exist@,
            paths@.len() as int,
        ),
{
    let mut i: usize = 0;
    proof {
        assert(cand_views(candidates@) =~= Seq::<Cand>::empty());
        assert(warning_texts(warnings@) =~= Seq::<Seq<char>>::empty());
    }
    while i < paths.len()
        invariant
            i <= paths@.len() == exist@.len(),
            paths@.len() <= MAX_HITS,
            cand_views(candidates@) == gathered(
                mention_hits(repo_root@, texts(paths@), exist@, i as int),
            ),
            warning_texts(warnings@) == mention_warnings(
                repo_root@,
                texts(paths@),
                exist@,
                i as int,
            ),
        decreases paths@.len() - i,
    {
        let ghost hits = mention_hits(repo_root@, texts(paths@), exist@, i as int);
        proof {
            assert(texts(paths@)[i as int] == paths@[i as int]@);
            lemma_mention_hits(repo_root@, texts(paths@), exist@, i as int);
        }
        let path = normalize_repo_path(paths[i].as_str(), repo_root);
        if !is_excluded_path(path.as_str()) {
            if exist[i] {
                count_hit(
                    candidates,
                    path.as_str(),
                    100,
                    "explicitly mentioned by the user",
                    Ghost(hits),
                );
            } else {
                let mut message = "Mentioned path `".to_owned();
                message.append(path.as_str());
                message.append("` does not exist in the project.");
                let ghost before = warnings@;
                warnings.push(ContextWarning { message });
                proof {
                    assert(warning_texts(warnings@) =~= warning_texts(before).push(message@));
                }
            }
        }
        i += 1;
    }
}

fn count_changes(
    candidates: &mut Vec<Candidate>,
    repo_root: &str,
    paths: &Vec<String>,
    Ghost(hits): Ghost<Seq<Hit>>,
)
    requires
        cand_views(old(candidates)@) == gathered(hits),
        small_scores(hits),
        hits.len() + paths@.len() <= MAX_HITS,
    ensures
        cand_views(final(candidates)@) == gathered(
            hits + change_hits(repo_root@, texts(paths@), paths@.len() as int),
        ),
{
    let mut i: usize = 0;
    proof {
        assert(hits + change_hits(repo_root@, texts(paths@), 0) =~= hits);
    }
    while i < paths.len()
        invariant
            i <= paths@.len(),
            small_scores(hits),
            hits.len() + paths@.len() <= MAX_HITS,
            cand_views(candidates@) == gathered(
                hits + change_hits(repo_root@, texts(paths@), i as int),
            ),
        decreases paths@.len() - i,
    {
        let ghost found = change_hits(repo_root@, texts(paths@), i as int);
        proof {
            assert(texts(paths@)[i as int] == paths@[i as int]@);
            lemma_change_hits(repo_root@, texts(paths@), i as int);
            assert(small_scores(hits + found));
        }
        let path = normalize_repo_path(paths[i].as_str(), repo_root);
        if !is_excluded_path(path.as_str()) {
            count_hit(
                candidates,
                path.as_str(),
                40,
                "changed in the current git worktree",
                Ghost(hits + found),
            );
            proof {
                let hit = Hit {
                    path: path@,
                    score: 40,
                    evidence: "changed in the current git worktree"@,
                };
                assert((hits + found).push(hit) =~= hits + found.push(hit));
            }
        }
        i += 1;
    }
}

fn count_terms(
    candidates: &mut Vec<Candidate>,
    repo_root: &str,
    terms: &Vec<String>,
    searches: &Vec<Vec<FileMatch>>,
    Ghost(hits): Ghost<Seq<Hit>>,
)
    requires
        cand_views(old(candidates)@) == gathered(hits),
        small_scores(hits),
        terms@.len() == searches@.len(),
        hits.len() + match_count(searches@) <= MAX_HITS,
    ensures
        cand_views(final(candidates)@) == gathered(
            hits + term_hits(repo_root@, texts(terms@), searches@, terms@.len() as int),
        ),
{
    let mut i: usize = 0;
    proof {
        assert(hits + term_hits(repo_root@, texts(terms@), searches@, 0) =~= hits);
    }
    while i < terms.len()
        invariant
            i <= terms@.len() == searches@.len(),
            small_scores(hits),
            hits.len() + match_count(searches@) <= MAX_HITS,
            cand_views(candidates@) == gathered(
                hits + term_hits(repo_root@, texts(terms@), searches@, i as int),
            ),
        decreases terms@.len() - i,
    {
        let ghost found = term_hits(repo_root@, texts(terms@), searches@, i as int);
        proof {
            assert(texts(terms@)[i as int] == terms@[i as int]@);
            lemma_term_hits(repo_root@, texts(terms@), searches@, i as int);
            lemma_match_count(searches@, i as int);
            assert(small_scores(hits + found));
        }
        let evidence = between_ticks("file-search match for `", terms[i].as_str());
        add_matches(
            candidates,
            repo_root,
            &searches[i],
            20,
            evidence.as_str(),
            Ghost(hits + found),
        );
        proof {
            let more = match_hits(repo_root@, searches@[i as int]@, 20, evidence@);
            assert(hits + found + more =~= hits + (found + more));
        }
        i += 1;
    }
}

/// The files that may matter for a prompt, the best first, and a warning about each mentioned
/// path that does not exist. `exist` tells for each mentioned path whether it exists, and
/// `searches` holds the matches of each search term.
pub fn retrieve_relevant_files(
    repo_root: &str,
    intent: &IntentBlock,
    exist: &Vec<bool>,
    git: Option<&GitBlock>,
    searches: &Vec<Vec<FileMatch>>,
) -> (r: (Vec<RelevantFileBlock>, Vec<ContextWarning>))
    requires
        exist@.len() == intent.mentioned_paths@.len(),
        searches@.len() == search_terms(
            texts(intent.mentioned_paths@),
            texts(intent.keywords@),
        ).len(),
        intent.mentioned_paths@.len() + match_count(searches@) + (match git {
            Some(git) => git.changed_files@.len(),
            None => 0,
        }) <= MAX_HITS,
    ensures
        file_views(r.0@) == best_files(
            gathered(
                prompt_hits(
                    repo_root@,
                    texts(intent.mentioned_paths@),
                    exist@,
                    match git {
                        Some(git) => texts(git.changed_files@),
                        None => Seq::empty(),
                    },
                    search_terms(texts(intent.mentioned_paths@), texts(intent.keywords@)),
                    searches@,
                ),
            ),
            "deterministic candidate"@,
        ),
        warning_texts(r.1@) == mention_warnings(
            repo_root@,
            texts(intent.mentioned_paths@),
            exist@,
            intent.mentioned_paths@.len() as int,
        ),
{
    let mut candidates: Vec<Candidate> = Vec::new();
    let mut warnings: Vec<ContextWarning> = Vec::new();
    let terms = file_search_terms(intent);
    proof {
        assert(texts(terms@).len() == terms@.len());
    }
    count_mentions(&mut candidates, &mut warnings, repo_root, &intent.mentioned_paths, exist);
    let ghost n = intent.mentioned_paths@.len() as int;
    let ghost hits = mention_hits(repo_root@, texts(intent.mentioned_paths@), exist@, n);
    proof {
        lemma_mention_hits(repo_root@, texts(intent.mentioned_paths@), exist@, n);
    }
    let ghost changed: Seq<Seq<char>> = match git {
        Some(git) => texts(git.changed_files@),
        None => Seq::empty(),
    };
    let ghost changes = change_hits(repo_root@, changed, changed.len() as int);
    if let Some(git) = git {
        count_changes(&mut candidates, repo_root, &git.changed_files, Ghost(hits));
        proof {
            assert(texts(git.changed_files@).len() == git.changed_files@.len());
        }
    } else {
        proof {
            assert(hits + changes =~= hits);
        }
    }
    proof {
        lemma_change_hits(repo_root@, changed, changed.len() as int);
        assert(small_scores(hits + changes));
    }
    count_terms(&mut candidates, repo_root, &terms, searches, Ghost(hits + changes));
    let files = files_of(&candidates, "deterministic candidate");
    (files, warnings)
}

proof fn lemma_total_score_parts(a: Seq<Hit>, b: Seq<Hit>, path: Seq<char>)
    ensures
        total_score(a + b, path) == total_score(a, path) + total_score(b, path),
    decreases b.len(),
{
    if b.len() == 0 {
        assert(a + b =~= a);
    } else {
        assert((a + b).drop_last() =~= a + b.drop_last());
        lemma_total_score_parts(a, b.drop_last(), path);
    }
}

proof fn lemma_total_score(hits: Seq<Hit>, path: Seq<char>)
    requires
        small_scores(hits),
    ensures
        0 <= total_score(hits, path),
    decreases hits.len(),
{
    if hits.len() > 0 {
        assert(0 <= hits[hits.len() - 1].score);
        assert(small_scores(hits.drop_last())) by {
            assert forall|i: int| 0 <= i < hits.drop_last().len() implies 0 <= (
            #[trigger] hits.drop_last()[i]).score <= 100 by {
                assert(hits.drop_last()[i] == hits[i]);
            }
        }
        lemma_total_score(hits.drop_last(), path);
    }
}

proof fn lemma_mention_score(
    repo_root: Seq<char>,
    paths: Seq<Seq<char>>,
    exist: Seq<bool>,
    n: int,
    i: int,
)
    requires
        0 <= i < n,
        exist[i],
        !is_excluded(repo_path(paths[i], repo_root)),
    ensures
        total_score(
            mention_hits(repo_root, paths, exist, n),
            repo_path(paths[i], repo_root),
        ) >= 100,
    decreases n,
{
    let path = repo_path(paths[i], repo_root);
    let before = mention_hits(repo_root, paths, exist, n - 1);
    let after = mention_hits(repo_root, paths, exist, n);
    lemma_mention_hits(repo_root, paths, exist, n - 1);
    lemma_total_score(before, path);
    if after.len() > before.len() {
        assert(after.drop_last() =~= before);
    }
    if i < n - 1 {
        lemma_mention_score(repo_root, paths, exist, n - 1, i);
    }
}

/// A path that the user mentions and that exists is ranked before every file that speaks for
/// itself by less than a mention, such as one that is only changed.
pub proof fn law_mentioned_first(
    repo_root: Seq<char>,
    mentioned: Seq<Seq<char>>,
    exist: Seq<bool>,
    changed: Seq<Seq<char>>,
    terms: Seq<Seq<char>>,
    searches: Seq<Vec<FileMatch>>,
    i: int,
    a: int,
    b: int,
)
    requires
        mentioned.len() == exist.len(),
        terms.len() == searches.len(),
        0 <= i < mentioned.len(),
        exist[i],
        !is_excluded(repo_path(mentioned[i], repo_root)),
        ({
            let hits = prompt_hits(repo_root, mentioned, exist, changed, terms, searches);
            let r = ranked(gathered(hits));
            &&& 0 <= a < r.len()
            &&& 0 <= b < r.len()
            &&& same_path(r[a].path, repo_path(mentioned[i], repo_root))
            &&& total_score(hits, r[b].path) < 100
        }),
    ensures
        a < b,
{
    let path = repo_path(mentioned[i], repo_root);
    let hits = prompt_hits(repo_root, mentioned, exist, changed, terms, searches);
    let mentions = mention_hits(repo_root, mentioned, exist, mentioned.len() as int);
    let changes = change_hits(repo_root, changed, changed.len() as int);
    let found = term_hits(repo_root, terms, searches, terms.len() as int);
    let r = ranked(gathered(hits));
    lemma_mention_score(repo_root, mentioned, exist, mentioned.len() as int, i);
    lemma_total_score_parts(mentions, changes, path);
    lemma_total_score_parts(mentions + changes, found, path);
    lemma_change_hits(repo_root, changed, changed.len() as int);
    lemma_term_hits(repo_root, terms, searches, terms.len() as int);
    lemma_total_score(changes, path);
    lemma_total_score(found, path);
    lemma_same_score(hits, r[a].path, path);
    law_ranked(hits);
}

proof fn lemma_same_score(hits: Seq<Hit>, a: Seq<char>, b: Seq<char>)
    requires
        same_path(a, b),
    ensures
        total_score(hits, a) == total_score(hits, b),
    decreases hits.len(),
{
    if hits.len() > 0 {
        lemma_same_score(hits.drop_last(), a, b);
    }
}

// ---------------------------------------------------------------------------
// Laws of the files that are kept
// ---------------------------------------------------------------------------

/// Whether the hit `n` is the first one on a path.
pub open spec fn is_first_hit(hits: Seq<Hit>, n: int, path: Seq<char>) -> bool {
    &&& 0 <= n < hits.len()
    &&& same_path(hits[n].path, path)
    &&& forall|m: int| 0 <= m < n ==> !same_path((#[trigger] hits[m]).path, path)
}

/// Whether a hit on a path has this evidence.
pub open spec fn has_evidence(hits: Seq<Hit>, path: Seq<char>, e: Seq<char>) -> bool {
    exists|n: int|
        0 <= n < hits.len() && same_path((#[trigger] hits[n]).path, path) && hits[n].evidence == e
}

proof fn lemma_one_new(list: Seq<Seq<char>>, x: Seq<char>)
    ensures
        with_new(list, seq![x]) == (if list.contains(x) {
            list
        } else {
            list.push(x)
        }),
{
    let more = seq![x];
    assert(more.drop_last() =~= Seq::<Seq<char>>::empty());
    assert(with_new(list, more.drop_last()) == list);
}

proof fn lemma_evidence_grows(hits: Seq<Hit>, path: Seq<char>, e: Seq<char>)
    requires
        hits.len() > 0,
    ensures
        has_evidence(hits, path, e) <==> has_evidence(hits.drop_last(), path, e) || same_path(
            hits.last().path,
            path,
        ) && hits.last().evidence == e,
{
    let init = hits.drop_last();
    if has_evidence(init, path, e) {
        let n = choose|n: int|
            0 <= n < init.len() && same_path((#[trigger] init[n]).path, path) && init[n].evidence
                == e;
        assert(same_path(hits[n].path, path));
    }
    if has_evidence(hits, path, e) {
        let n = choose|n: int|
            0 <= n < hits.len() && same_path((#[trigger] hits[n]).path, path) && hits[n].evidence
                == e;
        if n < init.len() {
            assert(same_path(init[n].path, path));
        }
    }
    if same_path(hits.last().path, path) && hits.last().evidence == e {
        assert(same_path(hits[hits.len() - 1].path, path));
    }
}

/// What is known of a candidate: its path is that of the first hit on it, its evidence starts with
/// that of this hit, and is the evidence of all hits on the path, each piece once.
pub proof fn law_candidate_evidence(hits: Seq<Hit>, k: int)
    requires
        0 <= k < gathered(hits).len(),
    ensures
        ({
            let c = gathered(hits)[k];
            &&& c.evidence.len() > 0
            &&& exists|n: int| #[trigger]
                is_first_hit(hits, n, c.path) && hits[n].path == c.path && c.evidence[0]
                    == hits[n].evidence
            &&& forall|e: Seq<char>| #[trigger]
                c.evidence.contains(e) <==> has_evidence(hits, c.path, e)
            &&& c.evidence.no_duplicates()
        }),
    decreases hits.len(),
{
    let init = hits.drop_last();
    let hit = hits.last();
    let before = gathered(init);
    let after = gathered(hits);
    let c = after[k];
    let p = path_place(cand_paths(before), hit.path);
    lemma_path_place(cand_paths(before), hit.path);
    law_gathered(init);
    if k < before.len() {
        law_candidate_evidence(init, k);
        let old = before[k];
        lemma_one_new(old.evidence, hit.evidence);
        assert(cand_paths(before)[k] == old.path);
        if k == p {
            assert(same_path(old.path, hit.path));
        } else if same_path(old.path, hit.path) {
            if k < p {
                assert(!same_path(cand_paths(before)[k], hit.path));
            } else {
                assert(cand_paths(before)[p] == before[p].path);
                assert(!same_path(before[p].path, before[k].path));
            }
        }
        let n = choose|n: int| #[trigger]
            is_first_hit(init, n, old.path) && init[n].path == old.path && old.evidence[0]
                == init[n].evidence;
        assert forall|m: int| 0 <= m < n implies !same_path((#[trigger] hits[m]).path, c.path) by {
            assert(init[m] == hits[m]);
        }
        assert(hits[n] == init[n]);
        assert(is_first_hit(hits, n, c.path));
        assert forall|e: Seq<char>| #[trigger] c.evidence.contains(e) <==> has_evidence(
            hits,
            c.path,
            e,
        ) by {
            lemma_evidence_grows(hits, c.path, e);
            assert(old.evidence.contains(e) <==> has_evidence(init, old.path, e));
            if old.evidence.contains(e) {
                let m = choose|m: int| 0 <= m < old.evidence.len() && old.evidence[m] == e;
                assert(c.evidence[m] == e);
            }
            if k == p && hit.evidence == e && !old.evidence.contains(e) {
                assert(c.evidence[old.evidence.len() as int] == e);
            }
            if c.evidence.contains(e) {
                let m = choose|m: int| 0 <= m < c.evidence.len() && c.evidence[m] == e;
                if m < old.evidence.len() {
                    assert(old.evidence[m] == e);
                }
            }
        }
        assert forall|i: int, j: int|
            0 <= i < c.evidence.len() && 0 <= j < c.evidence.len() && i != j implies c.evidence[i]
            != c.evidence[j] by {
            if i < old.evidence.len() {
                assert(old.evidence.contains(old.evidence[i]));
            }
            if j < old.evidence.len() {
                assert(old.evidence.contains(old.evidence[j]));
            }
        }
    } else {
        let n = hits.len() - 1;
        assert(c.path == hit.path && c.evidence == seq![hit.evidence]);
        assert forall|m: int| 0 <= m < n implies !same_path((#[trigger] hits[m]).path, c.path) by {
            assert(init[m] == hits[m]);
            let q = path_place(cand_paths(before), init[m].path);
            lemma_path_place(cand_paths(before), init[m].path);
            assert(q < before.len());
            assert(!same_path(cand_paths(before)[q], hit.path));
        }
        assert(is_first_hit(hits, n, c.path));
        assert forall|e: Seq<char>| #[trigger] c.evidence.contains(e) <==> has_evidence(
            hits,
            c.path,
            e,
        ) by {
            lemma_evidence_grows(hits, c.path, e);
            assert(c.evidence[0] == hit.evidence);
            if has_evidence(init, c.path, e) {
                let m = choose|m: int|
                    0 <= m < init.len() && same_path((#[trigger] init[m]).path, c.path)
                        && init[m].evidence == e;
                assert(!same_path(hits[m].path, c.path));
            }
        }
    }
}

proof fn lemma_ranked_score(hits: Seq<Hit>, i: int) -> (k: int)
    requires
        0 <= i < ranked(gathered(hits)).len(),
    ensures
        0 <= k < gathered(hits).len(),
        gathered(hits)[k] == ranked(gathered(hits))[i],
        gathered(hits)[k].score == total_score(hits, gathered(hits)[k].path),
{
    let all = gathered(hits);
    let r = ranked(all);
    law_ranked(hits);
    law_gathered(hits);
    assert(r.contains(r[i]));
    assert(all.contains(r[i]));
    choose|k: int| 0 <= k < all.len() && all[k] == r[i]
}

/// What is known of a file that is kept: its confidence is the score of all hits on its path
/// together, but at least none and at most full. Its reason is the evidence of the first hit on it,
/// and its evidence that of all of them, each piece once.
#[verifier::spinoff_prover]
pub proof fn law_kept_file(hits: Seq<Hit>, fallback: Seq<char>, i: int)
    requires
        0 <= i < best_files(gathered(hits), fallback).len(),
    ensures
        ({
            let f = best_files(gathered(hits), fallback)[i];
            let total = total_score(hits, f.path);
            &&& total >= 100 ==> f.confidence == 100
            &&& 0 <= total <= 100 ==> f.confidence == total
            &&& total < 0 ==> f.confidence == 0
            &&& exists|n: int| #[trigger]
                is_first_hit(hits, n, f.path) && hits[n].path == f.path && f.reason
                    == hits[n].evidence
            &&& forall|e: Seq<char>| #[trigger]
                f.evidence.contains(e) <==> has_evidence(hits, f.path, e)
            &&& f.evidence.no_duplicates()
        }),
{
    let r = ranked(gathered(hits));
    let k = lemma_ranked_score(hits, i);
    law_candidate_evidence(hits, k);
    assert(best_files(gathered(hits), fallback)[i] == file_of(r[i], fallback));
}

/// The order of the files that are kept: no path stands twice, neither the score of all hits on a
/// path nor the confidence rises along the list, and of equal scores the path that comes first in
/// dictionary order comes first.
pub proof fn law_kept_order(hits: Seq<Hit>, fallback: Seq<char>, i: int, j: int)
    requires
        0 <= i < j < best_files(gathered(hits), fallback).len(),
    ensures
        ({
            let a = best_files(gathered(hits), fallback)[i];
            let b = best_files(gathered(hits), fallback)[j];
            &&& !same_path(a.path, b.path)
            &&& a.confidence >= b.confidence
            &&& total_score(hits, a.path) >= total_score(hits, b.path)
            &&& total_score(hits, a.path) == total_score(hits, b.path) ==> !text_less(
                path_text(b.path),
                path_text(a.path),
            )
        }),
{
    let all = gathered(hits);
    let r = ranked(all);
    law_kept_file(hits, fallback, i);
    law_kept_file(hits, fallback, j);
    law_ranked(hits);
    law_gathered(hits);
    assert(rank_order()(r[i], r[j]));
    assert(rank_less(r[i], r[j]));
    let k = lemma_ranked_score(hits, i);
    let m = lemma_ranked_score(hits, j);
    lemma_rank_order();
    assert(!rank_order()(r[i], r[i]));
    if k < m {
        assert(!same_path(all[k].path, all[m].path));
    } else if m < k {
        assert(!same_path(all[m].path, all[k].path));
    }
    law_text_order();
    let (x, y) = (path_text(r[i].path), path_text(r[j].path));
    if text_less(y, x) && text_less(x, y) {
        assert(text_order()(y, x) && text_order()(x, y));
        assert(text_order()(x, x));
    }
    assert(!text_order()(x, x));
}

/// At most twelve files are kept, and a path with a hit is left out only where twelve are there
/// that have no lower score.
pub proof fn law_kept_complete(hits: Seq<Hit>, fallback: Seq<char>, n: int)
    requires
        0 <= n < hits.len(),
    ensures
        ({
            let kept = best_files(gathered(hits), fallback);
            &&& kept.len() <= 12
            &&& (exists|i: int|
                0 <= i < kept.len() && same_path((#[trigger] kept[i]).path, hits[n].path))
                || kept.len() == 12 && forall|i: int|
                0 <= i < 12 ==> total_score(hits, (#[trigger] kept[i]).path) >= total_score(
                    hits,
                    hits[n].path,
                )
        }),
{
    let all = gathered(hits);
    let r = ranked(all);
    let kept = best_files(all, fallback);
    law_ranked(hits);
    law_gathered(hits);
    let path = hits[n].path;
    let k = path_place(cand_paths(all), path);
    lemma_path_place(cand_paths(all), path);
    assert(cand_paths(all)[k] == all[k].path);
    assert(all.contains(all[k]));
    assert(r.contains(all[k]));
    let m = choose|m: int| 0 <= m < r.len() && r[m] == all[k];
    lemma_same_score(hits, all[k].path, path);
    if m < kept.len() {
        assert(same_path(kept[m].path, path));
    } else {
        assert forall|i: int| 0 <= i < 12 implies total_score(hits, (#[trigger] kept[i]).path)
            >= total_score(hits, path) by {
            assert(kept[i].path == r[i].path);
            if total_score(hits, r[i].path) < total_score(hits, r[m].path) {
                assert(m < i);
            }
        }
    }
}

proof fn lemma_hit_counts(hits: Seq<Hit>, n: int, path: Seq<char>)
    requires
        small_scores(hits),
        0 <= n < hits.len(),
        same_path(hits[n].path, path),
    ensures
        total_score(hits, path) >= hits[n].score,
    decreases hits.len(),
{
    let init = hits.drop_last();
    assert(small_scores(init)) by {
        assert forall|i: int| 0 <= i < init.len() implies 0 <= (#[trigger] init[i]).score <= 100 by {
            assert(init[i] == hits[i]);
        }
    }
    lemma_total_score(init, path);
    assert(0 <= hits[hits.len() - 1].score);
    if n < init.len() {
        assert(init[n] == hits[n]);
        lemma_hit_counts(init, n, path);
    }
}

/// The hits of one search: each match that is a file and counts is one, with the given score and
/// evidence, and nothing else is.
pub proof fn law_match_hits(
    repo_root: Seq<char>,
    matches: Seq<FileMatch>,
    score: int,
    evidence: Seq<char>,
)
    ensures
        forall|m: int|
            0 <= m < matches.len() && (#[trigger] matches[m]).is_file && !is_excluded(
                repo_path(matches[m].path@, repo_root),
            ) ==> match_hits(repo_root, matches, score, evidence).contains(
                Hit { path: repo_path(matches[m].path@, repo_root), score, evidence },
            ),
        forall|n: int|
            0 <= n < match_hits(repo_root, matches, score, evidence).len() ==> ({
                let hit = #[trigger] match_hits(repo_root, matches, score, evidence)[n];
                &&& hit.score == score
                &&& hit.evidence == evidence
                &&& !is_excluded(hit.path)
                &&& exists|m: int|
                    0 <= m < matches.len() && (#[trigger] matches[m]).is_file && hit.path
                        == repo_path(matches[m].path@, repo_root)
            }),
    decreases matches.len(),
{
    if matches.len() > 0 {
        let init = matches.drop_last();
        let before = match_hits(repo_root, init, score, evidence);
        let after = match_hits(repo_root, matches, score, evidence);
        law_match_hits(repo_root, init, score, evidence);
        assert forall|m: int|
            0 <= m < matches.len() && (#[trigger] matches[m]).is_file && !is_excluded(
                repo_path(matches[m].path@, repo_root),
            ) implies after.contains(
            Hit { path: repo_path(matches[m].path@, repo_root), score, evidence },
        ) by {
            let hit = Hit { path: repo_path(matches[m].path@, repo_root), score, evidence };
            if m < init.len() {
                assert(init[m] == matches[m]);
                let k = choose|k: int| 0 <= k < before.len() && before[k] == hit;
                assert(after[k] == hit);
            } else {
                assert(after[before.len() as int] == hit);
            }
        }
        assert forall|n: int| 0 <= n < after.len() implies ({
            let hit = #[trigger] after[n];
            &&& hit.score == score
            &&& hit.evidence == evidence
            &&& !is_excluded(hit.path)
            &&& exists|m: int|
                0 <= m < matches.len() && (#[trigger] matches[m]).is_file && hit.path == repo_path(
                    matches[m].path@,
                    repo_root,
                )
        }) by {
            if n < before.len() {
                assert(after[n] == before[n]);
                let m = choose|m: int|
                    0 <= m < init.len() && (#[trigger] init[m]).is_file && before[n].path
                        == repo_path(init[m].path@, repo_root);
                assert(matches[m] == init[m]);
            } else {
                assert(matches[matches.len() - 1].is_file);
            }
        }
    }
}

/// Whether a search found a file that counts at this path.
pub open spec fn found_at(
    repo_root: Seq<char>,
    matches: Seq<FileMatch>,
    path: Seq<char>,
) -> bool {
    exists|m: int|
        0 <= m < matches.len() && (#[trigger] matches[m]).is_file && repo_path(
            matches[m].path@,
            repo_root,
        ) == path && !is_excluded(path)
}

/// Whether one of the first `n` queries has a hit.
spec fn is_query_hit(
    repo_root: Seq<char>,
    queries: Seq<Seq<char>>,
    searches: Seq<Vec<FileMatch>>,
    n: int,
    hit: Hit,
) -> bool {
    exists|q: int|
        0 <= q < n && byte_count(trimmed(queries[q])) >= 2 && #[trigger] found_at(
            repo_root,
            searches[q]@,
            hit.path,
        )
}

proof fn lemma_query_hits_are(
    repo_root: Seq<char>,
    queries: Seq<Seq<char>>,
    searches: Seq<Vec<FileMatch>>,
    n: int,
)
    requires
        0 <= n <= queries.len(),
    ensures
        forall|k: int|
            0 <= k < query_hits(repo_root, queries, searches, n).len() ==> is_query_hit(
                repo_root,
                queries,
                searches,
                n,
                #[trigger] query_hits(repo_root, queries, searches, n)[k],
            ),
    decreases n,
{
    let after = query_hits(repo_root, queries, searches, n);
    if n > 0 {
        let before = query_hits(repo_root, queries, searches, n - 1);
        let query = trimmed(queries[n - 1]);
        let ms = searches[n - 1]@;
        let more = match_hits(repo_root, ms, 25, query_evidence(query));
        lemma_query_hits_are(repo_root, queries, searches, n - 1);
        law_match_hits(repo_root, ms, 25, query_evidence(query));
        assert forall|k: int| 0 <= k < after.len() implies is_query_hit(
            repo_root,
            queries,
            searches,
            n,
            #[trigger] after[k],
        ) by {
            let hit = after[k];
            if k < before.len() {
                assert(hit == before[k]);
                let q = choose|q: int|
                    0 <= q < n - 1 && byte_count(trimmed(queries[q])) >= 2 && #[trigger] found_at(
                        repo_root,
                        searches[q]@,
                        hit.path,
                    );
                assert(found_at(repo_root, searches[q]@, hit.path));
            } else {
                assert(byte_count(query) >= 2);
                assert(hit == more[k - before.len()]);
                let m = choose|m: int|
                    0 <= m < ms.len() && (#[trigger] ms[m]).is_file && hit.path == repo_path(
                        ms[m].path@,
                        repo_root,
                    );
                assert(ms[m].is_file);
                assert(found_at(repo_root, searches[n - 1]@, hit.path));
            }
        }
    } else {
        assert(after.len() == 0);
    }
}

proof fn lemma_query_counts(
    repo_root: Seq<char>,
    queries: Seq<Seq<char>>,
    searches: Seq<Vec<FileMatch>>,
    n: int,
    q: int,
    path: Seq<char>,
)
    requires
        0 <= q < n <= queries.len(),
        byte_count(trimmed(queries[q])) >= 2,
        found_at(repo_root, searches[q]@, path),
    ensures
        query_hits(repo_root, queries, searches, n).contains(
            Hit {
                path,
                score: 25,
                evidence: "ACE agent search match for `"@ + trimmed(queries[q]) + "`"@,
            },
        ),
    decreases n,
{
    let evidence = "ACE agent search match for `"@ + trimmed(queries[q]) + "`"@;
    let hit = Hit { path, score: 25, evidence };
    let before = query_hits(repo_root, queries, searches, n - 1);
    let after = query_hits(repo_root, queries, searches, n);
    if q < n - 1 {
        lemma_query_counts(repo_root, queries, searches, n - 1, q, path);
        let k = choose|k: int| 0 <= k < before.len() && before[k] == hit;
        assert(after[k] == hit);
    } else {
        let ms = searches[q]@;
        let more = match_hits(repo_root, ms, 25, evidence);
        law_match_hits(repo_root, ms, 25, evidence);
        let m = choose|m: int|
            0 <= m < ms.len() && (#[trigger] ms[m]).is_file && repo_path(ms[m].path@, repo_root)
                == path && !is_excluded(path);
        assert(ms[m].is_file);
        assert(more.contains(hit));
        let k = choose|k: int| 0 <= k < more.len() && more[k] == hit;
        assert(after == before + more);
        assert(after[before.len() + k] == hit);
    }
}

/// Whether a query of two bytes or more has found a file that counts at this path.
pub open spec fn is_query_file(
    repo_root: Seq<char>,
    queries: Seq<Seq<char>>,
    searches: Seq<Vec<FileMatch>>,
    path: Seq<char>,
) -> bool {
    exists|r: int|
        0 <= r < queries.len() && byte_count(trimmed(queries[r])) >= 2 && #[trigger] found_at(
            repo_root,
            searches[r]@,
            path,
        )
}

/// What queries find: each file that counts and that a query of two bytes or more matched is among
/// the files, by that evidence and with a confidence of at least a quarter, unless twelve others
/// are. Every file that is there was found so.
pub proof fn law_query_files(
    repo_root: Seq<char>,
    queries: Seq<Seq<char>>,
    searches: Seq<Vec<FileMatch>>,
    q: int,
    path: Seq<char>,
)
    requires
        queries.len() == searches.len(),
        0 <= q < queries.len(),
        byte_count(trimmed(queries[q])) >= 2,
        found_at(repo_root, searches[q]@, path),
    ensures
        ({
            let kept = files_for_queries(repo_root, queries, searches);
            &&& is_kept(
                kept,
                path,
                25,
                "ACE agent search match for `"@ + trimmed(queries[q]) + "`"@,
            )
            &&& forall|i: int|
                0 <= i < kept.len() ==> is_query_file(
                    repo_root,
                    queries,
                    searches,
                    (#[trigger] kept[i]).path,
                )
        }),
{
    let n = queries.len() as int;
    let hits = query_hits(repo_root, queries, searches, n);
    let fallback = "ACE agent search candidate"@;
    let kept = files_for_queries(repo_root, queries, searches);
    let evidence = "ACE agent search match for `"@ + trimmed(queries[q]) + "`"@;
    let hit = Hit { path, score: 25, evidence };
    lemma_query_hits_are(repo_root, queries, searches, n);
    lemma_query_counts(repo_root, queries, searches, n, q, path);
    lemma_query_hits(repo_root, queries, searches, n);
    assert(hits.contains(hit));
    let h = choose|h: int| 0 <= h < hits.len() && hits[h] == hit;
    lemma_kept(hits, fallback, h);
    assert forall|i: int| 0 <= i < kept.len() implies is_query_file(
        repo_root,
        queries,
        searches,
        (#[trigger] kept[i]).path,
    ) by {
        law_kept_file(hits, fallback, i);
        let m = choose|m: int| #[trigger]
            is_first_hit(hits, m, kept[i].path) && hits[m].path == kept[i].path && kept[i].reason
                == hits[m].evidence;
        assert(is_query_hit(repo_root, queries, searches, n, hits[m]));
        let r = choose|r: int|
            0 <= r < n && byte_count(trimmed(queries[r])) >= 2 && #[trigger] found_at(
                repo_root,
                searches[r]@,
                hits[m].path,
            );
        assert(found_at(repo_root, searches[r]@, kept[i].path));
    }
}

proof fn lemma_mention_hits_are(
    repo_root: Seq<char>,
    paths: Seq<Seq<char>>,
    exist: Seq<bool>,
    n: int,
)
    requires
        0 <= n <= paths.len(),
    ensures
        forall|i: int|
            0 <= i < n && exist[i] && !is_excluded(repo_path(#[trigger] paths[i], repo_root))
                ==> mention_hits(repo_root, paths, exist, n).contains(
                Hit {
                    path: repo_path(paths[i], repo_root),
                    score: 100,
                    evidence: "explicitly mentioned by the user"@,
                },
            ),
        forall|k: int|
            0 <= k < mention_hits(repo_root, paths, exist, n).len() ==> ({
                let hit = #[trigger] mention_hits(repo_root, paths, exist, n)[k];
                &&& !is_excluded(hit.path)
                &&& exists|i: int|
                    0 <= i < n && exist[i] && hit.path == repo_path(#[trigger] paths[i], repo_root)
            }),
    decreases n,
{
    if n > 0 {
        let before = mention_hits(repo_root, paths, exist, n - 1);
        let after = mention_hits(repo_root, paths, exist, n);
        lemma_mention_hits_are(repo_root, paths, exist, n - 1);
        assert forall|i: int|
            0 <= i < n && exist[i] && !is_excluded(
                repo_path(#[trigger] paths[i], repo_root),
            ) implies after.contains(
            Hit {
                path: repo_path(paths[i], repo_root),
                score: 100,
                evidence: "explicitly mentioned by the user"@,
            },
        ) by {
            let hit = Hit {
                path: repo_path(paths[i], repo_root),
                score: 100,
                evidence: "explicitly mentioned by the user"@,
            };
            if i < n - 1 {
                let k = choose|k: int| 0 <= k < before.len() && before[k] == hit;
                assert(after[k] == hit);
            } else {
                assert(after[before.len() as int] == hit);
            }
        }
        assert forall|k: int| 0 <= k < after.len() implies ({
            let hit = #[trigger] after[k];
            &&& !is_excluded(hit.path)
            &&& exists|i: int|
                0 <= i < n && exist[i] && hit.path == repo_path(#[trigger] paths[i], repo_root)
        }) by {
            if k < before.len() {
                assert(after[k] == before[k]);
                let i = choose|i: int|
                    0 <= i < n - 1 && exist[i] && before[k].path == repo_path(
                        #[trigger] paths[i],
                        repo_root,
                    );
                assert(after[k].path == repo_path(paths[i], repo_root));
            } else {
                assert(after[k].path == repo_path(paths[n - 1], repo_root));
            }
        }
    }
}

proof fn lemma_change_hits_are(repo_root: Seq<char>, paths: Seq<Seq<char>>, n: int)
    requires
        0 <= n <= paths.len(),
    ensures
        forall|i: int|
            0 <= i < n && !is_excluded(repo_path(#[trigger] paths[i], repo_root)) ==> change_hits(
                repo_root,
                paths,
                n,
            ).contains(
                Hit {
                    path: repo_path(paths[i], repo_root),
                    score: 40,
                    evidence: "changed in the current git worktree"@,
                },
            ),
        forall|k: int|
            0 <= k < change_hits(repo_root, paths, n).len() ==> ({
                let hit = #[trigger] change_hits(repo_root, paths, n)[k];
                &&& !is_excluded(hit.path)
                &&& exists|i: int|
                    0 <= i < n && hit.path == repo_path(#[trigger] paths[i], repo_root)
            }),
    decreases n,
{
    if n > 0 {
        let before = change_hits(repo_root, paths, n - 1);
        let after = change_hits(repo_root, paths, n);
        lemma_change_hits_are(repo_root, paths, n - 1);
        assert forall|i: int|
            0 <= i < n && !is_excluded(
                repo_path(#[trigger] paths[i], repo_root),
            ) implies after.contains(
            Hit {
                path: repo_path(paths[i], repo_root),
                score: 40,
                evidence: "changed in the current git worktree"@,
            },
        ) by {
            let hit = Hit {
                path: repo_path(paths[i], repo_root),
                score: 40,
                evidence: "changed in the current git worktree"@,
            };
            if i < n - 1 {
                let k = choose|k: int| 0 <= k < before.len() && before[k] == hit;
                assert(after[k] == hit);
            } else {
                assert(after[before.len() as int] == hit);
            }
        }
        assert forall|k: int| 0 <= k < after.len() implies ({
            let hit = #[trigger] after[k];
            &&& !is_excluded(hit.path)
            &&& exists|i: int| 0 <= i < n && hit.path == repo_path(#[trigger] paths[i], repo_root)
        }) by {
            if k < before.len() {
                assert(after[k] == before[k]);
                let i = choose|i: int|
                    0 <= i < n - 1 && before[k].path == repo_path(#[trigger] paths[i], repo_root);
                assert(after[k].path == repo_path(paths[i], repo_root));
            } else {
                assert(after[k].path == repo_path(paths[n - 1], repo_root));
            }
        }
    }
}

/// Whether one of the first `n` searches has found a file that counts at this path.
pub open spec fn is_found(
    repo_root: Seq<char>,
    searches: Seq<Vec<FileMatch>>,
    n: int,
    path: Seq<char>,
) -> bool {
    exists|q: int| 0 <= q < n && #[trigger] found_at(repo_root, searches[q]@, path)
}

proof fn lemma_term_hits_are(
    repo_root: Seq<char>,
    terms: Seq<Seq<char>>,
    searches: Seq<Vec<FileMatch>>,
    n: int,
)
    requires
        0 <= n <= terms.len(),
        terms.len() == searches.len(),
    ensures
        forall|q: int, path: Seq<char>|
            0 <= q < n && #[trigger] found_at(repo_root, searches[q]@, path) ==> term_hits(
                repo_root,
                terms,
                searches,
                n,
            ).contains(
                Hit { path, score: 20, evidence: "file-search match for `"@ + terms[q] + "`"@ },
            ),
        forall|k: int|
            0 <= k < term_hits(repo_root, terms, searches, n).len() ==> is_found(
                repo_root,
                searches,
                n,
                (#[trigger] term_hits(repo_root, terms, searches, n)[k]).path,
            ),
    decreases n,
{
    if n > 0 {
        let before = term_hits(repo_root, terms, searches, n - 1);
        let after = term_hits(repo_root, terms, searches, n);
        let more = match_hits(repo_root, searches[n - 1]@, 20, term_evidence(terms[n - 1]));
        lemma_term_hits_are(repo_root, terms, searches, n - 1);
        law_match_hits(repo_root, searches[n - 1]@, 20, term_evidence(terms[n - 1]));
        assert forall|q: int, path: Seq<char>|
            0 <= q < n && #[trigger] found_at(repo_root, searches[q]@, path) implies after.contains(
            Hit { path, score: 20, evidence: "file-search match for `"@ + terms[q] + "`"@ },
        ) by {
            let hit = Hit {
                path,
                score: 20,
                evidence: "file-search match for `"@ + terms[q] + "`"@,
            };
            if q < n - 1 {
                let k = choose|k: int| 0 <= k < before.len() && before[k] == hit;
                assert(after[k] == hit);
            } else {
                let ms = searches[q]@;
                let m = choose|m: int|
                    0 <= m < ms.len() && (#[trigger] ms[m]).is_file && repo_path(
                        ms[m].path@,
                        repo_root,
                    ) == path && !is_excluded(path);
                assert(more.contains(hit));
                let k = choose|k: int| 0 <= k < more.len() && more[k] == hit;
                assert(after[before.len() + k] == hit);
            }
        }
        assert forall|k: int| 0 <= k < after.len() implies is_found(
            repo_root,
            searches,
            n,
            (#[trigger] after[k]).path,
        ) by {
            if k < before.len() {
                assert(after[k] == before[k]);
                let q = choose|q: int|
                    0 <= q < n - 1 && #[trigger] found_at(
                        repo_root,
                        searches[q]@,
                        before[k].path,
                    );
                assert(found_at(repo_root, searches[q]@, after[k].path));
            } else {
                let hit = more[k - before.len()];
                assert(after[k] == hit);
                let ms = searches[n - 1]@;
                let m = choose|m: int|
                    0 <= m < ms.len() && (#[trigger] ms[m]).is_file && hit.path == repo_path(
                        ms[m].path@,
                        repo_root,
                    );
                assert(found_at(repo_root, searches[n - 1]@, hit.path));
            }
        }
    }
}

/// Whether a path that counts is mentioned and exists, is changed, or was found by a search.
pub open spec fn speaks_for(
    repo_root: Seq<char>,
    mentioned: Seq<Seq<char>>,
    exist: Seq<bool>,
    changed: Seq<Seq<char>>,
    searches: Seq<Vec<FileMatch>>,
    path: Seq<char>,
) -> bool {
    &&& !is_excluded(path)
    &&& {
        ||| exists|i: int|
            0 <= i < mentioned.len() && exist[i] && path == repo_path(
                #[trigger] mentioned[i],
                repo_root,
            )
        ||| exists|i: int|
            0 <= i < changed.len() && path == repo_path(#[trigger] changed[i], repo_root)
        ||| is_found(repo_root, searches, searches.len() as int, path)
    }
}

/// The files for a prompt. A file that the user mentions and that exists has full confidence, and
/// is among the files unless twelve others with full confidence are. A changed file, and one that a
/// search found, is there by that evidence unless twelve others are. Every file that is there is
/// one of these.
pub proof fn law_prompt_files(
    repo_root: Seq<char>,
    mentioned: Seq<Seq<char>>,
    exist: Seq<bool>,
    changed: Seq<Seq<char>>,
    terms: Seq<Seq<char>>,
    searches: Seq<Vec<FileMatch>>,
    fallback: Seq<char>,
)
    requires
        mentioned.len() == exist.len(),
        terms.len() == searches.len(),
    ensures
        ({
            let kept = best_files(
                gathered(prompt_hits(repo_root, mentioned, exist, changed, terms, searches)),
                fallback,
            );
            &&& forall|i: int|
                0 <= i < mentioned.len() && exist[i] && !is_excluded(
                    repo_path(#[trigger] mentioned[i], repo_root),
                ) ==> is_kept(
                    kept,
                    repo_path(mentioned[i], repo_root),
                    100,
                    "explicitly mentioned by the user"@,
                )
            &&& forall|i: int|
                0 <= i < changed.len() && !is_excluded(
                    repo_path(#[trigger] changed[i], repo_root),
                ) ==> is_kept(
                    kept,
                    repo_path(changed[i], repo_root),
                    40,
                    "changed in the current git worktree"@,
                )
            &&& forall|q: int, path: Seq<char>|
                0 <= q < terms.len() && #[trigger] found_at(repo_root, searches[q]@, path)
                    ==> is_kept(kept, path, 20, "file-search match for `"@ + terms[q] + "`"@)
            &&& forall|i: int|
                0 <= i < kept.len() ==> speaks_for(
                    repo_root,
                    mentioned,
                    exist,
                    changed,
                    searches,
                    (#[trigger] kept[i]).path,
                )
        }),
{
    let mentions = mention_hits(repo_root, mentioned, exist, mentioned.len() as int);
    let changes = change_hits(repo_root, changed, changed.len() as int);
    let found = term_hits(repo_root, terms, searches, terms.len() as int);
    let hits = prompt_hits(repo_root, mentioned, exist, changed, terms, searches);
    let kept = best_files(gathered(hits), fallback);
    lemma_mention_hits(repo_root, mentioned, exist, mentioned.len() as int);
    lemma_change_hits(repo_root, changed, changed.len() as int);
    lemma_term_hits(repo_root, terms, searches, terms.len() as int);
    lemma_mention_hits_are(repo_root, mentioned, exist, mentioned.len() as int);
    lemma_change_hits_are(repo_root, changed, changed.len() as int);
    lemma_term_hits_are(repo_root, terms, searches, terms.len() as int);
    assert(small_scores(hits));
    assert forall|i: int|
        0 <= i < mentioned.len() && exist[i] && !is_excluded(
            repo_path(#[trigger] mentioned[i], repo_root),
        ) implies is_kept(
        kept,
        repo_path(mentioned[i], repo_root),
        100,
        "explicitly mentioned by the user"@,
    ) by {
        let hit = Hit {
            path: repo_path(mentioned[i], repo_root),
            score: 100,
            evidence: "explicitly mentioned by the user"@,
        };
        let n = choose|n: int| 0 <= n < mentions.len() && mentions[n] == hit;
        assert(hits[n] == hit);
        lemma_kept(hits, fallback, n);
    }
    assert forall|i: int|
        0 <= i < changed.len() && !is_excluded(
            repo_path(#[trigger] changed[i], repo_root),
        ) implies is_kept(
        kept,
        repo_path(changed[i], repo_root),
        40,
        "changed in the current git worktree"@,
    ) by {
        let hit = Hit {
            path: repo_path(changed[i], repo_root),
            score: 40,
            evidence: "changed in the current git worktree"@,
        };
        let n = choose|n: int| 0 <= n < changes.len() && changes[n] == hit;
        assert(hits[mentions.len() + n] == hit);
        lemma_kept(hits, fallback, mentions.len() + n);
    }
    assert forall|q: int, path: Seq<char>|
        0 <= q < terms.len() && #[trigger] found_at(repo_root, searches[q]@, path) implies is_kept(
        kept,
        path,
        20,
        "file-search match for `"@ + terms[q] + "`"@,
    ) by {
        let hit = Hit {
            path,
            score: 20,
            evidence: "file-search match for `"@ + terms[q] + "`"@,
        };
        let n = choose|n: int| 0 <= n < found.len() && found[n] == hit;
        assert(hits[mentions.len() + changes.len() + n] == hit);
        lemma_kept(hits, fallback, mentions.len() + changes.len() + n);
    }
    assert forall|i: int| 0 <= i < kept.len() implies speaks_for(
        repo_root,
        mentioned,
        exist,
        changed,
        searches,
        (#[trigger] kept[i]).path,
    ) by {
        let path = kept[i].path;
        law_kept_file(hits, fallback, i);
        let m = choose|m: int| #[trigger]
            is_first_hit(hits, m, path) && hits[m].path == path && kept[i].reason
                == hits[m].evidence;
        if m < mentions.len() {
            assert(hits[m] == mentions[m]);
        } else if m < mentions.len() + changes.len() {
            assert(hits[m] == changes[m - mentions.len()]);
        } else {
            let k = m - mentions.len() - changes.len();
            assert(hits[m] == found[k]);
            let q = choose|q: int|
                0 <= q < terms.len() && #[trigger] found_at(repo_root, searches[q]@, found[k].path);
            assert(found_at(repo_root, searches[q]@, path));
        }
    }
}

/// Whether a path is among the files, or else twelve others are that are no less sure; and where it
/// is there, it is by at least this confidence and by this evidence.
pub open spec fn is_kept(
    kept: Seq<RelevantFile>,
    path: Seq<char>,
    confidence: int,
    evidence: Seq<char>,
) -> bool {
    &&& (exists|i: int| 0 <= i < kept.len() && same_path((#[trigger] kept[i]).path, path))
        || kept.len() == 12 && forall|i: int|
        0 <= i < 12 ==> (#[trigger] kept[i]).confidence >= confidence
    &&& forall|i: int|
        0 <= i < kept.len() && same_path((#[trigger] kept[i]).path, path) ==> confidence
            <= kept[i].confidence <= 100 && kept[i].evidence.contains(evidence)
}

proof fn lemma_kept(hits: Seq<Hit>, fallback: Seq<char>, n: int)
    requires
        small_scores(hits),
        0 <= n < hits.len(),
    ensures
        is_kept(
            best_files(gathered(hits), fallback),
            hits[n].path,
            hits[n].score,
            hits[n].evidence,
        ),
{
    let kept = best_files(gathered(hits), fallback);
    let path = hits[n].path;
    assert(0 <= hits[n].score <= 100);
    lemma_hit_counts(hits, n, path);
    assert forall|i: int|
        0 <= i < kept.len() && same_path((#[trigger] kept[i]).path, path) implies hits[n].score
        <= kept[i].confidence <= 100 && kept[i].evidence.contains(hits[n].evidence) by {
        law_kept_file(hits, fallback, i);
        lemma_hit_counts(hits, n, kept[i].path);
        assert(has_evidence(hits, kept[i].path, hits[n].evidence));
    }
    law_kept_complete(hits, fallback, n);
    if !(exists|i: int| 0 <= i < kept.len() && same_path((#[trigger] kept[i]).path, path)) {
        assert forall|i: int| 0 <= i < 12 implies (#[trigger] kept[i]).confidence
            >= hits[n].score by {
            law_kept_file(hits, fallback, i);
            assert(total_score(hits, kept[i].path) >= total_score(hits, path));
        }
    }
}

/// The warnings about a prompt: one, in order, about each mentioned path that counts and does not
/// exist, and none about any other.
pub proof fn law_mention_warnings(
    repo_root: Seq<char>,
    paths: Seq<Seq<char>>,
    exist: Seq<bool>,
    n: int,
)
    requires
        0 <= n <= paths.len(),
        paths.len() == exist.len(),
    ensures
        n == 0 ==> mention_warnings(repo_root, paths, exist, n).len() == 0,
        n > 0 ==> mention_warnings(repo_root, paths, exist, n) == (if !exist[n - 1] && !is_excluded(
            repo_path(paths[n - 1], repo_root),
        ) {
            mention_warnings(repo_root, paths, exist, n - 1).push(
                "Mentioned path `"@ + repo_path(paths[n - 1], repo_root)
                    + "` does not exist in the project."@,
            )
        } else {
            mention_warnings(repo_root, paths, exist, n - 1)
        }),
        (forall|i: int| 0 <= i < n ==> #[trigger] exist[i]) ==> mention_warnings(
            repo_root,
            paths,
            exist,
            n,
        ).len() == 0,
    decreases n,
{
    if n > 0 {
        law_mention_warnings(repo_root, paths, exist, n - 1);
    }
}

/// What is searched for: at most ten terms in dictionary order, none twice, each of three bytes or
/// more. The name of each mentioned file without its extension, each keyword, and each of the fixed
/// terms is one, where it is that long, unless ten others come before it.
pub proof fn law_search_terms(
    mentioned_paths: Seq<Seq<char>>,
    keywords: Seq<Seq<char>>,
    term: Seq<char>,
)
    ensures
        ({
            let out = search_terms(mentioned_paths, keywords);
            let offered = byte_count(term) >= 3 && (keywords.contains(term) || exists|i: int|
                0 <= i < mentioned_paths.len() && file_stem_of(#[trigger] mentioned_paths[i])
                    == Some(term));
            let fixed = term == "promptpilot"@ || term == "prompt_pilot"@ || term == "ctrl-x"@
                || term == "composer"@ || term == "slash_command"@ || term == "context"@;
            &&& out.len() <= 10
            &&& forall|i: int, j: int|
                0 <= i < j < out.len() ==> text_less(#[trigger] out[i], #[trigger] out[j])
            &&& offered || fixed ==> out.contains(term) || out.len() == 10 && forall|i: int|
                0 <= i < 10 ==> text_less(#[trigger] out[i], term)
            &&& out.contains(term) ==> offered || fixed
        }),
{
    let out = search_terms(mentioned_paths, keywords);
    let stems = stems_of(mentioned_paths);
    let a = stems.filter(searchable());
    let b = keywords.filter(searchable());
    let c = fallback_terms();
    let all = a + b + c;
    let sorted = sorted_texts(all);
    law_sorted_texts(all);
    crate::text::lemma_filter_contains(stems, searchable(), term);
    crate::text::lemma_filter_contains(keywords, searchable(), term);
    lemma_stems(mentioned_paths, term);
    assert(c.contains(term) <==> c[0] == term || c[1] == term || c[2] == term || c[3] == term || c[4]
        == term || c[5] == term);
    assert(all.contains(term) <==> a.contains(term) || b.contains(term) || c.contains(term)) by {
        if a.contains(term) {
            let k = choose|k: int| 0 <= k < a.len() && a[k] == term;
            assert(all[k] == term);
        }
        if b.contains(term) {
            let k = choose|k: int| 0 <= k < b.len() && b[k] == term;
            assert(all[a.len() + k] == term);
        }
        if c.contains(term) {
            let k = choose|k: int| 0 <= k < c.len() && c[k] == term;
            assert(all[a.len() + b.len() + k] == term);
        }
        if all.contains(term) {
            let k = choose|k: int| 0 <= k < all.len() && all[k] == term;
            if k < a.len() {
                assert(a[k] == term);
            } else if k < a.len() + b.len() {
                assert(b[k - a.len()] == term);
            } else {
                assert(c[k - a.len() - b.len()] == term);
            }
        }
    }
    assert forall|i: int, j: int| 0 <= i < j < out.len() implies text_less(
        #[trigger] out[i],
        #[trigger] out[j],
    ) by {
        assert(text_order()(sorted[i], sorted[j]));
    }
    if sorted.contains(term) {
        let m = choose|m: int| 0 <= m < sorted.len() && sorted[m] == term;
        if m < out.len() {
            assert(out[m] == term);
        } else {
            assert forall|i: int| 0 <= i < 10 implies text_less(#[trigger] out[i], term) by {
                assert(text_order()(sorted[i], sorted[m]));
            }
        }
    }
    if out.contains(term) {
        let m = choose|m: int| 0 <= m < out.len() && out[m] == term;
        assert(sorted[m] == term);
        assert(sorted.contains(term));
    }
}

proof fn lemma_stems(paths: Seq<Seq<char>>, term: Seq<char>)
    ensures
        stems_of(paths).contains(term) <==> exists|i: int|
            0 <= i < paths.len() && file_stem_of(#[trigger] paths[i]) == Some(term),
    decreases paths.len(),
{
    if paths.len() > 0 {
        let init = paths.drop_last();
        let before = stems_of(init);
        let after = stems_of(paths);
        lemma_stems(init, term);
        if before.contains(term) {
            let k = choose|k: int| 0 <= k < before.len() && before[k] == term;
            assert(after[k] == term);
        }
        if exists|i: int| 0 <= i < paths.len() && file_stem_of(#[trigger] paths[i]) == Some(term) {
            let i = choose|i: int|
                0 <= i < paths.len() && file_stem_of(#[trigger] paths[i]) == Some(term);
            if i < init.len() {
                assert(file_stem_of(init[i]) == Some(term));
            } else {
                assert(after[before.len() as int] == term);
            }
        }
        if after.contains(term) {
            let k = choose|k: int| 0 <= k < after.len() && after[k] == term;
            if k < before.len() {
                assert(before[k] == term);
                let i = choose|i: int|
                    0 <= i < init.len() && file_stem_of(#[trigger] init[i]) == Some(term);
                assert(file_stem_of(paths[i]) == Some(term));
            } else {
                assert(file_stem_of(paths[paths.len() - 1]) == Some(term));
            }
        }
    }
}

/// The paths that never count are those below a directory of these names, of files whose names
/// start with `.env`, and of files with these extensions; all others do.
pub proof fn law_excluded(path: Seq<char>)
    ensures
        ({
            let parts = components(path);
            let below = parts.contains(Part::Name(".git"@)) || parts.contains(
                Part::Name("target"@),
            ) || parts.contains(Part::Name("node_modules"@)) || parts.contains(Part::Name("dist"@))
                || parts.contains(Part::Name("build"@)) || parts.contains(Part::Name("coverage"@))
                || parts.contains(Part::Name("vendor"@));
            let secret = (file_name_of(path) matches Some(name) && begins_with(name, ".env"@))
                || extension_of(path) == Some("pem"@) || extension_of(path) == Some("key"@);
            is_excluded(path) <==> below || secret
        }),
{
    let parts = components(path);
    if exists|k: int| 0 <= k < parts.len() && is_excluded_part(#[trigger] parts[k]) {
        let k = choose|k: int| 0 <= k < parts.len() && is_excluded_part(#[trigger] parts[k]);
        assert(parts.contains(parts[k]));
    }
    assert forall|part: Part| #[trigger] parts.contains(part) && is_excluded_part(
        part,
    ) implies is_excluded(path) by {
        let k = choose|k: int| 0 <= k < parts.len() && parts[k] == part;
        assert(is_excluded_part(parts[k]));
    }
    assert(is_excluded_part(Part::Name(".git"@)));
    assert(is_excluded_part(Part::Name("target"@)));
    assert(is_excluded_part(Part::Name("node_modules"@)));
    assert(is_excluded_part(Part::Name("dist"@)));
    assert(is_excluded_part(Part::Name("build"@)));
    assert(is_excluded_part(Part::Name("coverage"@)));
    assert(is_excluded_part(Part::Name("vendor"@)));
}

/// One hit more raises the score of its file by its own and notes its evidence where that is not
/// noted yet; a file without a hit so far comes in at the end. No other file changes.
pub proof fn law_one_more_hit(hits: Seq<Hit>, hit: Hit)
    ensures
        ({
            let before = gathered(hits);
            let after = gathered(hits.push(hit));
            let seen = exists|i: int|
                0 <= i < before.len() && same_path((#[trigger] before[i]).path, hit.path);
            &&& forall|i: int|
                0 <= i < before.len() ==> i < after.len() && ({
                    let c = #[trigger] after[i];
                    let hit_here = same_path(before[i].path, hit.path);
                    &&& c.path == before[i].path
                    &&& c.score == before[i].score + (if hit_here {
                        hit.score
                    } else {
                        0
                    })
                    &&& c.evidence == (if hit_here && !before[i].evidence.contains(hit.evidence) {
                        before[i].evidence.push(hit.evidence)
                    } else {
                        before[i].evidence
                    })
                })
            &&& seen ==> after.len() == before.len()
            &&& !seen ==> after.len() == before.len() + 1 && after.last().path == hit.path
                && after.last().score == hit.score && after.last().evidence == seq![hit.evidence]
        }),
{
    let before = gathered(hits);
    let after = gathered(hits.push(hit));
    lemma_gathered_push(hits, hit);
    law_gathered(hits);
    let k = path_place(cand_paths(before), hit.path);
    lemma_path_place(cand_paths(before), hit.path);
    assert forall|i: int| 0 <= i < before.len() implies cand_paths(before)[i] == (
    #[trigger] before[i]).path by {}
    if k < before.len() {
        lemma_one_new(before[k].evidence, hit.evidence);
        assert(same_path(before[k].path, hit.path));
    }
    assert forall|i: int| 0 <= i < before.len() && i != k implies !same_path(
        (#[trigger] before[i]).path,
        hit.path,
    ) by {
        if i < k {
            assert(!same_path(cand_paths(before)[i], hit.path));
        } else {
            assert(!same_path(before[k].path, before[i].path));
        }
    }
}

/// The score of a path is the sum of the scores of the hits on it.
pub proof fn law_total_score(hits: Seq<Hit>, hit: Hit, path: Seq<char>)
    ensures
        total_score(Seq::empty(), path) == 0,
        same_path(hit.path, path) ==> total_score(hits.push(hit), path) == total_score(hits, path)
            + hit.score,
        !same_path(hit.path, path) ==> total_score(hits.push(hit), path) == total_score(hits, path),
{
    assert(hits.push(hit).drop_last() =~= hits);
}

/// The search is told to leave out what lies in a directory that is left out, wherever that
/// directory lies, and files that hold secrets.
pub proof fn law_excluded_patterns(name: Seq<char>)
    ensures
        seq![
            ".git"@,
            "target"@,
            "node_modules"@,
            "dist"@,
            "build"@,
            "coverage"@,
            "vendor"@,
        ].contains(name) ==> is_excluded_name(name) && excluded_patterns().contains(
            name + "/**"@,
        ) && excluded_patterns().contains("**/"@ + name + "/**"@),
        excluded_patterns().contains(".env*"@),
        excluded_patterns().contains("**/.env*"@),
        excluded_patterns().contains("*.pem"@),
        excluded_patterns().contains("*.key"@),
        excluded_patterns().len() == 18,
{
    reveal_strlit(".git");
    reveal_strlit("target");
    reveal_strlit("node_modules");
    reveal_strlit("dist");
    reveal_strlit("build");
    reveal_strlit("coverage");
    reveal_strlit("vendor");
    reveal_strlit("/**");
    reveal_strlit("**/");
    reveal_strlit(".git/**");
    reveal_strlit("**/.git/**");
    reveal_strlit("target/**");
    reveal_strlit("**/target/**");
    reveal_strlit("node_modules/**");
    reveal_strlit("**/node_modules/**");
    reveal_strlit("dist/**");
    reveal_strlit("**/dist/**");
    reveal_strlit("build/**");
    reveal_strlit("**/build/**");
    reveal_strlit("coverage/**");
    reveal_strlit("**/coverage/**");
    reveal_strlit("vendor/**");
    reveal_strlit("**/vendor/**");
    let all = excluded_patterns();
    assert(all[14] == ".env*"@ && all[15] == "**/.env*"@ && all[16] == "*.pem"@ && all[17]
        == "*.key"@);
    if name == ".git"@ {
        assert(all[0] =~= name + "/**"@ && all[1] =~= "**/"@ + name + "/**"@);
    } else if name == "target"@ {
        assert(all[2] =~= name + "/**"@ && all[3] =~= "**/"@ + name + "/**"@);
    } else if name == "node_modules"@ {
        assert(all[4] =~= name + "/**"@ && all[5] =~= "**/"@ + name + "/**"@);
    } else if name == "dist"@ {
        assert(all[6] =~= name + "/**"@ && all[7] =~= "**/"@ + name + "/**"@);
    } else if name == "build"@ {
        assert(all[8] =~= name + "/**"@ && all[9] =~= "**/"@ + name + "/**"@);
    } else if name == "coverage"@ {
        assert(all[10] =~= name + "/**"@ && all[11] =~= "**/"@ + name + "/**"@);
    } else if name == "vendor"@ {
        assert(all[12] =~= name + "/**"@ && all[13] =~= "**/"@ + name + "/**"@);
    }
}

} // verus!
