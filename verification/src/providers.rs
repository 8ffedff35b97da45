//! What the files of a project say about it.
use vstd::prelude::*;
use crate::bytes::{byte_count, byte_prefix, lemma_byte_prefix, lossy_text, truncate_string};
use crate::context_pack::{GitBlock, ManifestBlock, ProjectBlock, ProjectDocBlock, RuleBlock};
use crate::json::{json_from_str, json_get, json_read, json_tree, member, JsonTree};
use crate::limited_text::{content_of, is_text, limited_text};
use crate::ordered::{law_sorted_texts, sort_texts, sorted_texts, text_less, text_order};
use crate::paths::{relative_path, relative_to};
use crate::relevant_files::contents_view;
use crate::text::{
    begins_with, blank, contains, finishes_with, first_of, first_texts, has_text, is_blank,
    is_white_space, join, joined, law_joined, law_trimmed_keeps, lemma_has_middle,
    lemma_has_text_within, lemma_texts_push, only, same_text, split, split_where, strip_prefix,
    strip_suffix, texts, trim, trimmed,
};
use crate::toml_tree::{entry, toml_from_str, toml_get, toml_read, toml_tree, toml_trees, TomlTree};

verus! {

/// How many bytes of a document are read.
pub const MAX_PROJECT_DOC_BYTES: usize = 6_000;

/// How many bytes of a file of rules are read.
pub const MAX_RULE_BYTES: usize = 8_000;

/// How many bytes of a manifest are read.
pub const MAX_MANIFEST_BYTES: usize = 6_000;

/// How many bytes of what git says are kept.
pub const MAX_GIT_TEXT_BYTES: usize = 4_000;

// ---------------------------------------------------------------------------
// Documents and rules
// ---------------------------------------------------------------------------

/// The text of a file, with its path.
#[verifier::ext_equal]
pub struct Doc {
    pub path: Seq<char>,
    pub content: Seq<char>,
    pub truncated: bool,
}

/// The models of a list of documents.
pub open spec fn doc_views(docs: Seq<ProjectDocBlock>) -> Seq<Doc> {
    Seq::new(
        docs.len(),
        |i: int|
            Doc { path: docs[i].path@, content: docs[i].content@, truncated: docs[i].truncated },
    )
}

/// The models of a list of files of rules.
pub open spec fn rule_views(rules: Seq<RuleBlock>) -> Seq<Doc> {
    Seq::new(
        rules.len(),
        |i: int|
            Doc {
                path: rules[i].path@,
                content: rules[i].summary_or_content@,
                truncated: rules[i].truncated,
            },
    )
}

/// The texts of the first `n` files; one that could not be read, is no text or is blank gives
/// none.
pub open spec fn docs_upto(
    paths: Seq<Seq<char>>,
    contents: Seq<Option<Seq<u8>>>,
    max_bytes: int,
    n: int,
) -> Seq<Doc>
    decreases n,
{
    if n <= 0 {
        Seq::empty()
    } else {
        let before = docs_upto(paths, contents, max_bytes, n - 1);
        match contents[n - 1] {
            Some(bytes) => if is_text(bytes) && !is_blank(content_of(bytes, max_bytes)) {
                before.push(
                    Doc {
                        path: paths[n - 1],
                        content: content_of(bytes, max_bytes),
                        truncated: bytes.len() > max_bytes,
                    },
                )
            } else {
                before
            },
            None => before,
        }
    }
}

/// The documents of a project, by their paths in it.
pub open spec fn doc_names() -> Seq<Seq<char>> {
    seq!["README.md"@, "README"@, "docs/README.md"@]
}

/// The documents of a project, by their paths in it.
pub fn project_doc_names() -> (out: Vec<String>)
    ensures
        texts(out@) == doc_names(),
{
    let out: Vec<String> = vec![
        "README.md".to_owned(),
        "README".to_owned(),
        "docs/README.md".to_owned(),
    ];
    proof {
        assert(texts(out@) =~= doc_names());
    }
    out
}

/// The documents of a project, given what each of [`project_doc_names`] holds.
pub fn collect_project_docs(contents: &Vec<Option<Vec<u8>>>) -> (out: Vec<ProjectDocBlock>)
    requires
        contents@.len() == 3,
    ensures
        doc_views(out@) == docs_upto(
            doc_names(),
            contents_view(contents@),
            MAX_PROJECT_DOC_BYTES as int,
            3,
        ),
{
    let names = project_doc_names();
    let ghost found = contents_view(contents@);
    let mut out: Vec<ProjectDocBlock> = Vec::new();
    let mut i: usize = 0;
    proof {
        assert(doc_views(out@) =~= Seq::<Doc>::empty());
        assert(texts(names@).len() == names@.len());
    }
    while i < 3
        invariant
            i <= 3,
            contents@.len() == 3,
            names@.len() == 3,
            texts(names@) == doc_names(),
            found == contents_view(contents@),
            doc_views(out@) == docs_upto(
                doc_names(),
                found,
                MAX_PROJECT_DOC_BYTES as int,
                i as int,
            ),
        decreases 3 - i,
    {
        let ghost before = out@;
        proof {
            assert(texts(names@)[i as int] == names@[i as int]@);
        }
        if let Some(bytes) = &contents[i] {
            if let Some(text) = limited_text(bytes, MAX_PROJECT_DOC_BYTES) {
                if !blank(text.content.as_str()) {
                    let doc = ProjectDocBlock {
                        path: names[i].clone(),
                        content: text.content,
                        truncated: text.truncated,
                    };
                    out.push(doc);
                    proof {
                        assert(doc_views(out@) =~= doc_views(before).push(
                            Doc {
                                path: doc.path@,
                                content: doc.content@,
                                truncated: doc.truncated,
                            },
                        ));
                    }
                }
            }
        }
        i += 1;
    }
    out
}

/// The paths relative to a project.
pub open spec fn relative_paths(paths: Seq<Seq<char>>, repo_root: Seq<char>) -> Seq<Seq<char>> {
    Seq::new(paths.len(), |i: int| relative_to(paths[i], repo_root))
}

/// The rules for agents, given the files that hold them and what each of them holds.
pub fn collect_agent_rules(
    repo_root: &str,
    sources: &Vec<String>,
    contents: &Vec<Option<Vec<u8>>>,
) -> (out: Vec<RuleBlock>)
    requires
        sources@.len() == contents@.len(),
    ensures
        rule_views(out@) == docs_upto(
            relative_paths(texts(sources@), repo_root@),
            contents_view(contents@),
            MAX_RULE_BYTES as int,
            sources@.len() as int,
        ),
{
    let ghost paths = relative_paths(texts(sources@), repo_root@);
    let ghost found = contents_view(contents@);
    let mut out: Vec<RuleBlock> = Vec::new();
    let mut i: usize = 0;
    proof {
        assert(rule_views(out@) =~= Seq::<Doc>::empty());
    }
    while i < sources.len()
        invariant
            i <= sources@.len() == contents@.len(),
            paths == relative_paths(texts(sources@), repo_root@),
            found == contents_view(contents@),
            rule_views(out@) == docs_upto(paths, found, MAX_RULE_BYTES as int, i as int),
        decreases sources@.len() - i,
    {
        let ghost before = out@;
        proof {
            assert(texts(sources@)[i as int] == sources@[i as int]@);
            assert(paths[i as int] == relative_to(sources@[i as int]@, repo_root@));
        }
        if let Some(bytes) = &contents[i] {
            if let Some(text) = limited_text(bytes, MAX_RULE_BYTES) {
                if !blank(text.content.as_str()) {
                    let rule = RuleBlock {
                        path: relative_path(sources[i].as_str(), repo_root),
                        summary_or_content: text.content,
                        truncated: text.truncated,
                    };
                    out.push(rule);
                    proof {
                        assert(rule_views(out@) =~= rule_views(before).push(
                            Doc {
                                path: rule.path@,
                                content: rule.summary_or_content@,
                                truncated: rule.truncated,
                            },
                        ));
                    }
                }
            }
        }
        i += 1;
    }
    out
}

// ---------------------------------------------------------------------------
// Lines of manifests
// ---------------------------------------------------------------------------

/// The lines of a text.
pub open spec fn lines_of(content: Seq<char>) -> Seq<Seq<char>> {
    split_where(content, only('\n'))
}

/// What the first line gives for which `f` gives something.
pub open spec fn first_given(
    lines: Seq<Seq<char>>,
    f: spec_fn(Seq<char>) -> Option<Seq<char>>,
) -> Option<Seq<char>>
    decreases lines.len(),
{
    if lines.len() == 0 {
        None
    } else {
        match f(lines[0]) {
            Some(value) => Some(value),
            None => first_given(lines.drop_first(), f),
        }
    }
}

fn char_is_line_feed(c: char) -> (r: bool)
    ensures
        r == only('\n')(c),
{
    c == '\n'
}

fn first_line_value<F: Fn(&str) -> Option<String>>(
    content: &str,
    f: F,
    Ghost(p): Ghost<spec_fn(Seq<char>) -> Option<Seq<char>>>,
) -> (r: Option<String>)
    requires
        forall|s: &str| #[trigger] f.requires((s,)),
        forall|s: &str, v: Option<String>| #[trigger]
            f.ensures((s,), v) ==> (v is Some <==> p(s@) is Some) && (v matches Some(text) ==> p(
                s@,
            ) == Some(text@)),
    ensures
        r is Some <==> first_given(lines_of(content@), p) is Some,
        r matches Some(text) ==> first_given(lines_of(content@), p) == Some(text@),
{
    let lines = split(content, char_is_line_feed, Ghost(only('\n')));
    let ghost all = lines_of(content@);
    let mut i: usize = 0;
    proof {
        assert(all.skip(0) =~= all);
        assert(texts(lines@).len() == lines@.len());
    }
    while i < lines.len()
        invariant
            i <= lines@.len(),
            all == lines_of(content@),
            texts(lines@) == all,
            all.len() == lines@.len(),
            first_given(all.skip(i as int), p) == first_given(all, p),
            forall|s: &str| #[trigger] f.requires((s,)),
            forall|s: &str, v: Option<String>| #[trigger]
                f.ensures((s,), v) ==> (v is Some <==> p(s@) is Some) && (v matches Some(text)
                    ==> p(s@) == Some(text@)),
        decreases lines@.len() - i,
    {
        proof {
            assert(all.skip(i as int)[0] == lines@[i as int]@);
            assert(all.skip(i as int).drop_first() =~= all.skip(i + 1));
        }
        let value = f(lines[i].as_str());
        if value.is_some() {
            return value;
        }
        i += 1;
    }
    None
}

/// The text between double quotes in a line that gives it under `key`.
pub open spec fn quoted_value(line: Seq<char>, key: Seq<char>) -> Option<Seq<char>> {
    let prefix = key + " = "@;
    if begins_with(trimmed(line), prefix) {
        let value = trimmed(trimmed(line).skip(prefix.len() as int));
        if begins_with(value, "\""@) && finishes_with(value.skip(1), "\""@) {
            Some(value.skip(1).take(value.len() - 2))
        } else {
            None
        }
    } else {
        None
    }
}

/// What a line gives under `key`.
pub open spec fn quoted_under(key: Seq<char>) -> spec_fn(Seq<char>) -> Option<Seq<char>> {
    |line: Seq<char>| quoted_value(line, key)
}

fn quoted_in_line(line: &str, key: &str) -> (r: Option<String>)
    ensures
        r is Some <==> quoted_value(line@, key@) is Some,
        r matches Some(text) ==> quoted_value(line@, key@) == Some(text@),
{
    let mut prefix = key.to_owned();
    prefix.append(" = ");
    proof {
        reveal_strlit("\"");
    }
    match strip_prefix(trim(line), prefix.as_str()) {
        Some(value) => match strip_prefix(trim(value), "\"") {
            Some(value) => match strip_suffix(value, "\"") {
                Some(value) => Some(value.to_owned()),
                None => None,
            },
            None => None,
        },
        None => None,
    }
}

/// The text that the first line with a quoted text under `key` gives.
pub fn toml_string_value(content: &str, key: &str) -> (r: Option<String>)
    ensures
        r is Some <==> first_given(lines_of(content@), quoted_under(key@)) is Some,
        r matches Some(text) ==> first_given(lines_of(content@), quoted_under(key@)) == Some(
            text@,
        ),
{
    let f = |line: &str| -> (v: Option<String>)
        ensures
            v is Some <==> quoted_value(line@, key@) is Some,
            v matches Some(text) ==> quoted_value(line@, key@) == Some(text@),
        { quoted_in_line(line, key) };
    first_line_value(content, f, Ghost(quoted_under(key@)))
}

/// The module that a line names.
pub open spec fn module_value(line: Seq<char>) -> Option<Seq<char>> {
    if begins_with(trimmed(line), "module "@) {
        Some(trimmed(trimmed(line).skip("module "@.len() as int)))
    } else {
        None
    }
}

/// The module that a line names.
pub open spec fn module_in_line() -> spec_fn(Seq<char>) -> Option<Seq<char>> {
    |line: Seq<char>| module_value(line)
}

fn module_named(line: &str) -> (r: Option<String>)
    ensures
        r is Some <==> module_value(line@) is Some,
        r matches Some(text) ==> module_value(line@) == Some(text@),
{
    match strip_prefix(trim(line), "module ") {
        Some(module) => Some(trim(module).to_owned()),
        None => None,
    }
}

// ---------------------------------------------------------------------------
// Summaries of manifests
// ---------------------------------------------------------------------------

/// The texts among some TOML values.
pub open spec fn texts_among(items: Seq<TomlTree>) -> Seq<Seq<char>>
    decreases items.len(),
{
    if items.len() == 0 {
        Seq::empty()
    } else {
        let before = texts_among(items.drop_last());
        match items.last() {
            TomlTree::Text(text) => before.push(text),
            _ => before,
        }
    }
}

/// The first twenty-four members of the workspace in a TOML document.
pub open spec fn members_in(tree: TomlTree) -> Seq<Seq<char>> {
    match entry(tree, "workspace"@) {
        Some(workspace) => match entry(workspace, "members"@) {
            Some(TomlTree::Array(items)) => first_of(texts_among(items), 24),
            _ => Seq::empty(),
        },
        None => Seq::empty(),
    }
}

/// The members of the workspace in the text of a manifest.
pub open spec fn workspace_members(content: Seq<char>) -> Seq<Seq<char>> {
    match toml_read(content) {
        Some(tree) => members_in(tree),
        None => Seq::empty(),
    }
}

/// The first twenty-four members of the workspace in a TOML document.
pub fn workspace_members_in(value: &toml::Value) -> (out: Vec<String>)
    ensures
        texts(out@) == members_in(toml_tree(*value)),
{
    let mut members: Vec<String> = Vec::new();
    proof {
        assert(texts(members@) =~= Seq::<Seq<char>>::empty());
    }
    let workspace = match toml_get(value, "workspace") {
        Some(workspace) => workspace,
        None => return members,
    };
    let items = match toml_get(workspace, "members") {
        Some(items) => items,
        None => return members,
    };
    let items = match items.as_array() {
        Some(items) => items,
        None => return members,
    };
    let ghost all = toml_trees(items@);
    let mut i: usize = 0;
    proof {
        assert(all.take(0) =~= Seq::<TomlTree>::empty());
    }
    while i < items.len()
        invariant
            i <= items@.len(),
            all == toml_trees(items@),
            texts(members@) == texts_among(all.take(i as int)),
        decreases items@.len() - i,
    {
        broadcast use lemma_texts_push;

        proof {
            assert(all.take(i + 1).drop_last() =~= all.take(i as int));
            assert(all.take(i + 1).last() == toml_tree(items@[i as int]));
        }
        if let Some(text) = items[i].as_str() {
            members.push(text.to_owned());
        }
        i += 1;
    }
    proof {
        assert(all.take(items@.len() as int) =~= all);
    }
    first_texts(&members, 24)
}

/// The members of the workspace in the text of a manifest.
pub fn cargo_workspace_members(content: &str) -> (out: Vec<String>)
    ensures
        texts(out@) == workspace_members(content@),
{
    match toml_from_str(content) {
        Some(value) => workspace_members_in(&value),
        None => {
            let out: Vec<String> = Vec::new();
            proof {
                assert(texts(out@) =~= Seq::<Seq<char>>::empty());
            }
            out
        },
    }
}

/// The parts of the summary of a Cargo manifest: whether it is a workspace, its name, its members.
pub open spec fn cargo_parts(
    workspace: bool,
    name: Option<Seq<char>>,
    members: Seq<Seq<char>>,
) -> Seq<Seq<char>> {
    let first = if workspace {
        seq!["Cargo workspace"@]
    } else {
        Seq::empty()
    };
    let second = match name {
        Some(name) => first.push("package `"@ + name + "`"@),
        None => first,
    };
    if members.len() > 0 {
        second.push("members: "@ + joined(members, ", "@))
    } else {
        second
    }
}

/// The summary of a Cargo manifest with these members.
pub open spec fn cargo_summary_with(content: Seq<char>, members: Seq<Seq<char>>) -> Seq<char> {
    joined(
        cargo_parts(
            has_text(content, "[workspace]"@),
            first_given(lines_of(content), quoted_under("name"@)),
            members,
        ),
        "; "@,
    )
}

/// The summary of a Cargo manifest.
pub open spec fn cargo_summary(content: Seq<char>) -> Seq<char> {
    cargo_summary_with(content, workspace_members(content))
}

fn between(before: &str, text: &str, after: &str) -> (r: String)
    ensures
        r@ == before@ + text@ + after@,
{
    let mut out = before.to_owned();
    out.append(text);
    out.append(after);
    out
}

/// The summary of a Cargo manifest with these members.
pub fn summarize_cargo_members(content: &str, members: &Vec<String>) -> (r: String)
    ensures
        r@ == cargo_summary_with(content@, texts(members@)),
{
    broadcast use lemma_texts_push;

    let mut parts: Vec<String> = Vec::new();
    proof {
        assert(texts(parts@) =~= Seq::<Seq<char>>::empty());
        assert(texts(members@).len() == members@.len());
    }
    if contains(content, "[workspace]") {
        parts.push("Cargo workspace".to_owned());
        proof {
            assert(texts(parts@) =~= seq!["Cargo workspace"@]);
        }
    }
    if let Some(name) = toml_string_value(content, "name") {
        parts.push(between("package `", name.as_str(), "`"));
    }
    if !members.is_empty() {
        let mut part = "members: ".to_owned();
        part.append(join(members, ", ").as_str());
        parts.push(part);
    }
    join(&parts, "; ")
}

/// The summary of a Cargo manifest.
pub fn summarize_cargo_manifest(content: &str) -> (r: String)
    ensures
        r@ == cargo_summary(content@),
{
    summarize_cargo_members(content, &cargo_workspace_members(content))
}

/// The summary of a Node manifest that was read as this JSON value, where it could be read.
pub open spec fn node_summary_of(tree: Option<JsonTree>) -> Seq<char> {
    let name = match tree {
        Some(tree) => match member(tree, "name"@) {
            Some(JsonTree::Text(name)) => Some(name),
            _ => None,
        },
        None => None,
    };
    let workspaces = tree matches Some(tree) && member(tree, "workspaces"@) is Some;
    match (name, workspaces) {
        (Some(name), true) => "Node package `"@ + name + "` with workspaces"@,
        (Some(name), false) => "Node package `"@ + name + "`"@,
        (None, true) => "Node package with workspaces"@,
        (None, false) => "Node package"@,
    }
}

/// The summary of a Node manifest.
pub open spec fn node_summary(content: Seq<char>) -> Seq<char> {
    node_summary_of(
        match json_read(content) {
            Ok(tree) => Some(tree),
            Err(_) => None,
        },
    )
}

/// The model of an optional JSON value.
pub open spec fn optional_tree(value: Option<&serde_json::Value>) -> Option<JsonTree> {
    match value {
        Some(value) => Some(json_tree(*value)),
        None => None,
    }
}

/// The summary of a Node manifest that was read as this JSON value, where it could be read.
pub fn summarize_package_value(value: Option<&serde_json::Value>) -> (r: String)
    ensures
        r@ == node_summary_of(optional_tree(value)),
{
    let value = match value {
        Some(value) => value,
        None => return "Node package".to_owned(),
    };
    let workspaces = json_get(value, "workspaces").is_some();
    let name = match json_get(value, "name") {
        Some(name) => name.as_str(),
        None => None,
    };
    match name {
        Some(name) => if workspaces {
            between("Node package `", name, "` with workspaces")
        } else {
            between("Node package `", name, "`")
        },
        None => if workspaces {
            "Node package with workspaces".to_owned()
        } else {
            "Node package".to_owned()
        },
    }
}

/// The summary of a Node manifest.
pub fn summarize_package_json(content: &str) -> (r: String)
    ensures
        r@ == node_summary(content@),
{
    match json_from_str(content) {
        Ok(value) => summarize_package_value(Some(&value)),
        Err(_) => summarize_package_value(None),
    }
}

/// The summary of a Python manifest.
pub open spec fn python_summary(content: Seq<char>) -> Seq<char> {
    match first_given(lines_of(content), quoted_under("name"@)) {
        Some(name) => "Python project `"@ + name + "`"@,
        None => "Python project"@,
    }
}

/// The summary of a Python manifest.
pub fn summarize_pyproject(content: &str) -> (r: String)
    ensures
        r@ == python_summary(content@),
{
    match toml_string_value(content, "name") {
        Some(name) => between("Python project `", name.as_str(), "`"),
        None => "Python project".to_owned(),
    }
}

/// The summary of a Go manifest.
pub open spec fn go_summary(content: Seq<char>) -> Seq<char> {
    match first_given(lines_of(content), module_in_line()) {
        Some(module) => "Go module `"@ + module + "`"@,
        None => "Go module"@,
    }
}

/// The summary of a Go manifest.
pub fn summarize_go_mod(content: &str) -> (r: String)
    ensures
        r@ == go_summary(content@),
{
    match first_line_value(content, module_named, Ghost(module_in_line())) {
        Some(module) => between("Go module `", module.as_str(), "`"),
        None => "Go module".to_owned(),
    }
}

/// The summary of a manifest with this name; empty for a name that is not known.
pub open spec fn manifest_summary(name: Seq<char>, content: Seq<char>) -> Seq<char> {
    if name == "Cargo.toml"@ {
        cargo_summary(content)
    } else if name == "package.json"@ {
        node_summary(content)
    } else if name == "pyproject.toml"@ {
        python_summary(content)
    } else if name == "go.mod"@ {
        go_summary(content)
    } else {
        Seq::empty()
    }
}

/// The summary of a manifest with this name; empty for a name that is not known.
pub fn summarize_manifest(name: &str, content: &str) -> (r: String)
    ensures
        r@ == manifest_summary(name@, content@),
{
    if same_text(name, "Cargo.toml") {
        summarize_cargo_manifest(content)
    } else if same_text(name, "package.json") {
        summarize_package_json(content)
    } else if same_text(name, "pyproject.toml") {
        summarize_pyproject(content)
    } else if same_text(name, "go.mod") {
        summarize_go_mod(content)
    } else {
        String::new()
    }
}

// ---------------------------------------------------------------------------
// The project
// ---------------------------------------------------------------------------

/// The manifests that are looked for.
pub open spec fn manifest_names() -> Seq<Seq<char>> {
    seq!["Cargo.toml"@, "package.json"@, "pyproject.toml"@, "go.mod"@]
}

/// The manifests that are looked for.
pub fn project_manifest_names() -> (out: Vec<String>)
    ensures
        texts(out@) == manifest_names(),
{
    let out: Vec<String> = vec![
        "Cargo.toml".to_owned(),
        "package.json".to_owned(),
        "pyproject.toml".to_owned(),
        "go.mod".to_owned(),
    ];
    proof {
        assert(texts(out@) =~= manifest_names());
    }
    out
}

/// The language that each manifest stands for.
pub open spec fn manifest_languages() -> Seq<Seq<char>> {
    seq!["Rust"@, "JavaScript/TypeScript"@, "Python"@, "Go"@]
}

/// The test command that each manifest stands for.
pub open spec fn manifest_commands() -> Seq<Seq<char>> {
    seq!["cargo test"@, "npm test"@, "pytest"@, "go test ./..."@]
}

/// The kind of project that a manifest stands for.
pub open spec fn manifest_kind(i: int, content: Seq<char>) -> Seq<char> {
    if i == 0 {
        if has_text(content, "[workspace]"@) {
            "Cargo workspace"@
        } else {
            "Cargo package"@
        }
    } else if i == 1 {
        "Node package"@
    } else if i == 2 {
        "Python project"@
    } else {
        "Go module"@
    }
}

/// The model of a [`ManifestBlock`].
#[verifier::ext_equal]
pub struct Manifest {
    pub path: Seq<char>,
    pub summary: Seq<char>,
}

/// The models of a list of manifests.
pub open spec fn manifest_views(manifests: Seq<ManifestBlock>) -> Seq<Manifest> {
    Seq::new(
        manifests.len(),
        |i: int| Manifest { path: manifests[i].path@, summary: manifests[i].summary@ },
    )
}

/// The text of a manifest that counts: it could be read, is a text, and has a summary.
pub open spec fn manifest_content(contents: Seq<Option<Seq<u8>>>, i: int) -> Option<Seq<char>> {
    match contents[i] {
        Some(bytes) => {
            let content = content_of(bytes, MAX_MANIFEST_BYTES as int);
            if is_text(bytes) && manifest_summary(manifest_names()[i], content).len() > 0 {
                Some(content)
            } else {
                None
            }
        },
        None => None,
    }
}

/// What the first manifests say together.
#[verifier::ext_equal]
pub struct ProjectFacts {
    pub languages: Seq<Seq<char>>,
    pub commands: Seq<Seq<char>>,
    pub modules: Seq<Seq<char>>,
    pub kind: Option<Seq<char>>,
    pub manifests: Seq<Manifest>,
}

/// What the first `n` manifests say together; the kind of project is that of the first that
/// counts.
pub open spec fn facts_upto(contents: Seq<Option<Seq<u8>>>, n: int) -> ProjectFacts
    decreases n,
{
    if n <= 0 {
        ProjectFacts {
            languages: Seq::empty(),
            commands: Seq::empty(),
            modules: Seq::empty(),
            kind: None,
            manifests: Seq::empty(),
        }
    } else {
        let before = facts_upto(contents, n - 1);
        match manifest_content(contents, n - 1) {
            Some(content) => ProjectFacts {
                languages: before.languages.push(manifest_languages()[n - 1]),
                commands: before.commands.push(manifest_commands()[n - 1]),
                modules: if n == 1 && has_text(content, "[workspace]"@) {
                    workspace_members(content)
                } else {
                    before.modules
                },
                kind: match before.kind {
                    Some(kind) => Some(kind),
                    None => Some(manifest_kind(n - 1, content)),
                },
                manifests: before.manifests.push(
                    Manifest {
                        path: manifest_names()[n - 1],
                        summary: manifest_summary(manifest_names()[n - 1], content),
                    },
                ),
            },
            None => before,
        }
    }
}

/// Whether a block says what the manifests say: languages, commands and modules in dictionary
/// order, of the modules the first twenty-four.
pub open spec fn block_says(block: ProjectBlock, repo_root: Seq<char>, facts: ProjectFacts) -> bool {
    &&& block.repo_root@ == repo_root
    &&& texts(block.detected_languages@) == sorted_texts(facts.languages)
    &&& match block.workspace_kind {
        Some(kind) => facts.kind == Some(kind@),
        None => facts.kind is None,
    }
    &&& texts(block.relevant_modules@) == first_of(sorted_texts(facts.modules), 24)
    &&& texts(block.test_commands@) == sorted_texts(facts.commands)
    &&& manifest_views(block.manifests@) == facts.manifests
}

fn language_of_manifest(i: usize) -> (r: String)
    requires
        i < 4,
    ensures
        r@ == manifest_languages()[i as int],
{
    if i == 0 {
        "Rust".to_owned()
    } else if i == 1 {
        "JavaScript/TypeScript".to_owned()
    } else if i == 2 {
        "Python".to_owned()
    } else {
        "Go".to_owned()
    }
}

fn command_of_manifest(i: usize) -> (r: String)
    requires
        i < 4,
    ensures
        r@ == manifest_commands()[i as int],
{
    if i == 0 {
        "cargo test".to_owned()
    } else if i == 1 {
        "npm test".to_owned()
    } else if i == 2 {
        "pytest".to_owned()
    } else {
        "go test ./...".to_owned()
    }
}

fn kind_of_manifest(i: usize, content: &str) -> (r: String)
    requires
        i < 4,
    ensures
        r@ == manifest_kind(i as int, content@),
{
    if i == 0 {
        if contains(content, "[workspace]") {
            "Cargo workspace".to_owned()
        } else {
            "Cargo package".to_owned()
        }
    } else if i == 1 {
        "Node package".to_owned()
    } else if i == 2 {
        "Python project".to_owned()
    } else {
        "Go module".to_owned()
    }
}

/// What the manifests of a project say, given what each of [`project_manifest_names`] holds.
pub fn collect_project_block(repo_root: &str, contents: &Vec<Option<Vec<u8>>>) -> (r: ProjectBlock)
    requires
        contents@.len() == 4,
    ensures
        block_says(r, repo_root@, facts_upto(contents_view(contents@), 4)),
{
    let names = project_manifest_names();
    let ghost found = contents_view(contents@);
    let mut languages: Vec<String> = Vec::new();
    let mut commands: Vec<String> = Vec::new();
    let mut modules: Vec<String> = Vec::new();
    let mut kind: Option<String> = None;
    let mut manifests: Vec<ManifestBlock> = Vec::new();
    let mut i: usize = 0;
    proof {
        assert(texts(names@).len() == names@.len());
        assert(texts(languages@) =~= Seq::<Seq<char>>::empty());
        assert(manifest_views(manifests@) =~= Seq::<Manifest>::empty());
    }
    while i < 4
        invariant
            i <= 4,
            contents@.len() == 4,
            names@.len() == 4,
            texts(names@) == manifest_names(),
            found == contents_view(contents@),
            texts(languages@) == facts_upto(found, i as int).languages,
            texts(commands@) == facts_upto(found, i as int).commands,
            texts(modules@) == facts_upto(found, i as int).modules,
            match kind {
                Some(kind) => facts_upto(found, i as int).kind == Some(kind@),
                None => facts_upto(found, i as int).kind is None,
            },
            manifest_views(manifests@) == facts_upto(found, i as int).manifests,
        decreases 4 - i,
    {
        broadcast use lemma_texts_push;

        let ghost before = manifests@;
        proof {
            assert(texts(names@)[i as int] == names@[i as int]@);
            assert(found[i as int] == (match contents@[i as int] {
                Some(bytes) => Some(bytes@),
                None => None,
            }));
        }
        if let Some(bytes) = &contents[i] {
            if let Some(text) = limited_text(bytes, MAX_MANIFEST_BYTES) {
                let summary = summarize_manifest(names[i].as_str(), text.content.as_str());
                if !summary.as_str().is_empty() {
                    proof {
                        assert(manifest_content(found, i as int) == Some(text.content@));
                    }
                    languages.push(language_of_manifest(i));
                    commands.push(command_of_manifest(i));
                    if i == 0 && contains(text.content.as_str(), "[workspace]") {
                        modules = cargo_workspace_members(text.content.as_str());
                    }
                    if kind.is_none() {
                        kind = Some(kind_of_manifest(i, text.content.as_str()));
                    }
                    let manifest = ManifestBlock { path: names[i].clone(), summary };
                    manifests.push(manifest);
                    proof {
                        assert(manifest_views(manifests@) =~= manifest_views(before).push(
                            Manifest { path: manifest.path@, summary: manifest.summary@ },
                        ));
                    }
                }
            }
        }
        i += 1;
    }
    ProjectBlock {
        repo_root: repo_root.to_owned(),
        detected_languages: sort_texts(&languages),
        workspace_kind: kind,
        relevant_modules: first_texts(&sort_texts(&modules), 24),
        test_commands: sort_texts(&commands),
        manifests,
    }
}

// ---------------------------------------------------------------------------
// Git
// ---------------------------------------------------------------------------

/// What git says about the worktree.
#[derive(Clone, Debug, PartialEq, Eq)]
pub struct GitWorktreeSummary {
    pub branch: Option<String>,
    pub has_changes: bool,
    pub changed_files: Vec<String>,
    pub status_short: String,
    pub diff_stat: String,
}

/// The first bytes of a text; `None` where they are blank.
pub open spec fn kept_text(text: Seq<char>, max_bytes: nat) -> Option<Seq<char>> {
    if is_blank(byte_prefix(text, max_bytes)) {
        None
    } else {
        Some(byte_prefix(text, max_bytes))
    }
}

/// The first bytes of a text; `None` where they are blank.
pub fn non_empty_truncated(value: String, max_bytes: usize) -> (r: Option<String>)
    ensures
        r is Some <==> kept_text(value@, max_bytes as nat) is Some,
        r matches Some(text) ==> kept_text(value@, max_bytes as nat) == Some(text@),
{
    let value = truncate_string(value, max_bytes);
    if blank(value.as_str()) {
        None
    } else {
        Some(value)
    }
}

/// Whether a block holds what git says, its longer texts up to a limit.
pub open spec fn git_block_says(block: GitBlock, summary: GitWorktreeSummary) -> bool {
    &&& block.branch == summary.branch
    &&& block.has_changes == summary.has_changes
    &&& block.changed_files == summary.changed_files
    &&& block.status_short@ == byte_prefix(summary.status_short@, MAX_GIT_TEXT_BYTES as nat)
    &&& match block.diff_stat {
        Some(text) => kept_text(summary.diff_stat@, MAX_GIT_TEXT_BYTES as nat) == Some(text@),
        None => kept_text(summary.diff_stat@, MAX_GIT_TEXT_BYTES as nat) is None,
    }
}

/// What git says about the worktree, where it says anything.
pub fn collect_git_block(summary: Option<GitWorktreeSummary>) -> (r: Option<GitBlock>)
    ensures
        r is Some <==> summary is Some,
        r matches Some(block) ==> git_block_says(block, summary->Some_0),
{
    match summary {
        Some(summary) => Some(
            GitBlock {
                branch: summary.branch,
                has_changes: summary.has_changes,
                changed_files: summary.changed_files,
                status_short: truncate_string(summary.status_short, MAX_GIT_TEXT_BYTES),
                diff_stat: non_empty_truncated(summary.diff_stat, MAX_GIT_TEXT_BYTES),
            },
        ),
        None => None,
    }
}

// ---------------------------------------------------------------------------
// Laws of what a project says
// ---------------------------------------------------------------------------

/// The text of a file with these bytes, up to six thousand bytes; `None` where it could not be read
/// or has a zero byte.
pub open spec fn manifest_text(contents: Option<Seq<u8>>) -> Option<Seq<char>> {
    match contents {
        Some(bytes) => if bytes.contains(0u8) {
            None
        } else if bytes.len() <= 6000 {
            Some(trimmed(lossy_text(bytes)))
        } else {
            Some(trimmed(lossy_text(bytes.take(6000))))
        },
        None => None,
    }
}

proof fn lemma_cargo_counts(content: Seq<char>)
    requires
        has_text(content, "[workspace]"@),
    ensures
        cargo_summary(content).len() > 0,
        has_text(cargo_summary(content), "Cargo workspace"@),
{
    let parts = cargo_parts(
        true,
        first_given(lines_of(content), quoted_under("name"@)),
        workspace_members(content),
    );
    assert(parts[0] == "Cargo workspace"@);
    law_joined(parts, "; "@, Seq::empty());
    reveal_strlit("Cargo workspace");
}

proof fn lemma_manifest_names_differ()
    ensures
        "Cargo.toml"@ != "package.json"@,
        "Cargo.toml"@ != "pyproject.toml"@,
        "Cargo.toml"@ != "go.mod"@,
        "package.json"@ != "pyproject.toml"@,
        "package.json"@ != "go.mod"@,
        "pyproject.toml"@ != "go.mod"@,
{
    reveal_strlit("Cargo.toml");
    reveal_strlit("package.json");
    reveal_strlit("pyproject.toml");
    reveal_strlit("go.mod");
    assert("Cargo.toml"@.len() == 10);
    assert("package.json"@.len() == 12);
    assert("pyproject.toml"@.len() == 14);
    assert("go.mod"@.len() == 6);
}

proof fn lemma_other_manifests_count(content: Seq<char>)
    ensures
        node_summary(content).len() > 0,
        python_summary(content).len() > 0,
        go_summary(content).len() > 0,
{
    reveal_strlit("Node package `");
    reveal_strlit("Node package");
    reveal_strlit("Node package with workspaces");
    reveal_strlit("Python project `");
    reveal_strlit("Python project");
    reveal_strlit("Go module `");
    reveal_strlit("Go module");
}

proof fn lemma_counts(contents: Seq<Option<Seq<u8>>>)
    requires
        contents.len() == 4,
    ensures
        forall|i: int|
            1 <= i < 4 ==> #[trigger] manifest_content(contents, i) == manifest_text(contents[i]),
        manifest_content(contents, 0) == (match manifest_text(contents[0]) {
            Some(content) => if cargo_summary(content).len() > 0 {
                Some(content)
            } else {
                None
            },
            None => None,
        }),
{
    lemma_manifest_names_differ();
    assert forall|i: int| 1 <= i < 4 implies #[trigger] manifest_content(contents, i)
        == manifest_text(contents[i]) by {
        if let Some(bytes) = contents[i] {
            lemma_other_manifests_count(content_of(bytes, MAX_MANIFEST_BYTES as int));
        }
        assert(i == 1 || i == 2 || i == 3);
    }
}

/// The modules of a project are the members of its Cargo workspace, whatever the other manifests
/// hold: where `Cargo.toml` has a workspace they are exactly its members, each once and in
/// dictionary order, and where it has none, or there is no such file, there are none.
#[verifier::spinoff_prover]
pub proof fn law_modules(
    block: ProjectBlock,
    repo_root: Seq<char>,
    contents: Seq<Option<Seq<u8>>>,
)
    requires
        contents.len() == 4,
        block_says(block, repo_root, facts_upto(contents, 4)),
    ensures
        ({
            let modules = texts(block.relevant_modules@);
            let text = manifest_text(contents[0]);
            &&& modules.len() <= 24
            &&& text is None ==> modules.len() == 0
            &&& text matches Some(content) ==> ({
                &&& !has_text(content, "[workspace]"@) ==> modules.len() == 0
                &&& has_text(content, "[workspace]"@) ==> forall|module: Seq<char>| #[trigger]
                    modules.contains(module) <==> workspace_members(content).contains(module)
            })
            &&& forall|i: int, j: int|
                0 <= i < j < modules.len() ==> text_less(#[trigger] modules[i], #[trigger] modules[j])
        }),
{
    reveal_with_fuel(facts_upto, 5);
    lemma_counts(contents);
    let facts = facts_upto(contents, 4);
    let sorted = sorted_texts(facts.modules);
    let modules = texts(block.relevant_modules@);
    law_sorted_texts(facts.modules);
    assert forall|i: int, j: int| 0 <= i < j < modules.len() implies text_less(
        #[trigger] modules[i],
        #[trigger] modules[j],
    ) by {
        assert(text_order()(sorted[i], sorted[j]));
    }
    if facts.modules.len() == 0 && sorted.len() > 0 {
        assert(sorted.contains(sorted[0]));
    }
    if let Some(content) = manifest_text(contents[0]) {
        if has_text(content, "[workspace]"@) {
            lemma_cargo_counts(content);
            let members = workspace_members(content);
            lemma_members_bound(content);
            crate::ordered::lemma_sorted_len(members);
            assert(facts.modules == members);
            assert(modules == sorted);
        }
    }
}

proof fn lemma_members_bound(content: Seq<char>)
    ensures
        workspace_members(content).len() <= 24,
{
}

/// The members of a workspace: of the array under `workspace.members` each text is one, in order,
/// unless twenty-four others come before it, and nothing else is.
pub proof fn law_workspace_members(
    tree: TomlTree,
    workspace: TomlTree,
    items: Seq<TomlTree>,
    text: Seq<char>,
)
    requires
        entry(tree, "workspace"@) == Some(workspace),
        entry(workspace, "members"@) == Some(TomlTree::Array(items)),
    ensures
        items.contains(TomlTree::Text(text)) ==> members_in(tree).contains(text) || members_in(
            tree,
        ).len() == 24,
        members_in(tree).contains(text) ==> items.contains(TomlTree::Text(text)),
        members_in(tree).len() <= 24,
        items.len() <= 24 && (forall|i: int|
            0 <= i < items.len() ==> #[trigger] items[i] is Text) ==> members_in(tree).len()
            == items.len() && forall|i: int|
            0 <= i < items.len() ==> #[trigger] items[i] == TomlTree::Text(members_in(tree)[i]),
{
    lemma_texts_among(items, text);
    let all = texts_among(items);
    if all.contains(text) {
        let k = choose|k: int| 0 <= k < all.len() && all[k] == text;
        if k < members_in(tree).len() {
            assert(members_in(tree)[k] == text);
        }
    }
    if members_in(tree).contains(text) {
        let k = choose|k: int| 0 <= k < members_in(tree).len() && members_in(tree)[k] == text;
        assert(all[k] == text);
    }
}

proof fn lemma_texts_among(items: Seq<TomlTree>, text: Seq<char>)
    ensures
        texts_among(items).contains(text) <==> items.contains(TomlTree::Text(text)),
        texts_among(items).len() <= items.len(),
        (forall|i: int| 0 <= i < items.len() ==> #[trigger] items[i] is Text) ==> texts_among(
            items,
        ).len() == items.len() && forall|i: int|
            0 <= i < items.len() ==> #[trigger] items[i] == TomlTree::Text(texts_among(items)[i]),
    decreases items.len(),
{
    if items.len() > 0 {
        let init = items.drop_last();
        let before = texts_among(init);
        let all = texts_among(items);
        lemma_texts_among(init, text);
        if items.contains(TomlTree::Text(text)) {
            let k = choose|k: int| 0 <= k < items.len() && items[k] == TomlTree::Text(text);
            if k < init.len() {
                assert(init[k] == TomlTree::Text(text));
                let m = choose|m: int| 0 <= m < before.len() && before[m] == text;
                assert(all[m] == text);
            } else {
                assert(all[before.len() as int] == text);
            }
        }
        if all.contains(text) {
            let m = choose|m: int| 0 <= m < all.len() && all[m] == text;
            if m < before.len() {
                assert(before[m] == text);
                let k = choose|k: int| 0 <= k < init.len() && init[k] == TomlTree::Text(text);
                assert(items[k] == TomlTree::Text(text));
            } else {
                assert(items[items.len() - 1] == TomlTree::Text(text));
            }
        }
        if forall|i: int| 0 <= i < items.len() ==> #[trigger] items[i] is Text {
            assert forall|i: int| 0 <= i < init.len() implies #[trigger] init[i] is Text by {
                assert(items[i] is Text);
            }
            assert(items[items.len() - 1] is Text);
            assert forall|i: int| 0 <= i < items.len() implies #[trigger] items[i]
                == TomlTree::Text(all[i]) by {
                if i < init.len() {
                    assert(init[i] == TomlTree::Text(before[i]));
                }
            }
        }
    }
}

/// Each manifest that is there as a text stands for its language, its test command and an entry of
/// its own, whatever the others hold, and `Cargo.toml` does where it says anything. Nothing else
/// does. The kind of project is that of the first of them.
#[verifier::spinoff_prover]
pub proof fn law_manifests(
    block: ProjectBlock,
    repo_root: Seq<char>,
    contents: Seq<Option<Seq<u8>>>,
)
    requires
        contents.len() == 4,
        block_says(block, repo_root, facts_upto(contents, 4)),
    ensures
        ({
            let languages = texts(block.detected_languages@);
            let commands = texts(block.test_commands@);
            let rust = manifest_text(contents[0]) matches Some(content) && cargo_summary(
                content,
            ).len() > 0;
            let node = manifest_text(contents[1]) is Some;
            let python = manifest_text(contents[2]) is Some;
            let go = manifest_text(contents[3]) is Some;
            &&& block.repo_root@ == repo_root
            &&& languages.contains("Rust"@) <==> rust
            &&& languages.contains("JavaScript/TypeScript"@) <==> node
            &&& languages.contains("Python"@) <==> python
            &&& languages.contains("Go"@) <==> go
            &&& commands.contains("cargo test"@) <==> rust
            &&& commands.contains("npm test"@) <==> node
            &&& commands.contains("pytest"@) <==> python
            &&& commands.contains("go test ./..."@) <==> go
            &&& block.manifests@.len() == (if rust {
                1int
            } else {
                0
            }) + (if node {
                1int
            } else {
                0
            }) + (if python {
                1int
            } else {
                0
            }) + (if go {
                1int
            } else {
                0
            })
            &&& rust ==> manifest_views(block.manifests@).contains(
                Manifest {
                    path: "Cargo.toml"@,
                    summary: cargo_summary(manifest_text(contents[0])->Some_0),
                },
            )
            &&& node ==> manifest_views(block.manifests@).contains(
                Manifest {
                    path: "package.json"@,
                    summary: node_summary(manifest_text(contents[1])->Some_0),
                },
            )
            &&& python ==> manifest_views(block.manifests@).contains(
                Manifest {
                    path: "pyproject.toml"@,
                    summary: python_summary(manifest_text(contents[2])->Some_0),
                },
            )
            &&& go ==> manifest_views(block.manifests@).contains(
                Manifest {
                    path: "go.mod"@,
                    summary: go_summary(manifest_text(contents[3])->Some_0),
                },
            )
            &&& match block.workspace_kind {
                None => !rust && !node && !python && !go,
                Some(kind) => {
                    if rust {
                        kind@ == (if has_text(
                            manifest_text(contents[0])->Some_0,
                            "[workspace]"@,
                        ) {
                            "Cargo workspace"@
                        } else {
                            "Cargo package"@
                        })
                    } else if node {
                        kind@ == "Node package"@
                    } else if python {
                        kind@ == "Python project"@
                    } else {
                        go && kind@ == "Go module"@
                    }
                },
            }
        }),
{
    reveal_with_fuel(facts_upto, 5);
    lemma_counts(contents);
    lemma_manifest_names_differ();
    lemma_manifest_words_differ();
    let f0 = facts_upto(contents, 0);
    let f1 = facts_upto(contents, 1);
    let f2 = facts_upto(contents, 2);
    let f3 = facts_upto(contents, 3);
    let f4 = facts_upto(contents, 4);
    law_sorted_texts(f4.languages);
    law_sorted_texts(f4.commands);
    assert(manifest_views(block.manifests@).len() == block.manifests@.len());
    lemma_step(f0.languages, f1.languages);
    lemma_step(f1.languages, f2.languages);
    lemma_step(f2.languages, f3.languages);
    lemma_step(f3.languages, f4.languages);
    lemma_step(f0.commands, f1.commands);
    lemma_step(f1.commands, f2.commands);
    lemma_step(f2.commands, f3.commands);
    lemma_step(f3.commands, f4.commands);
    lemma_step(f0.manifests, f1.manifests);
    lemma_step(f1.manifests, f2.manifests);
    lemma_step(f2.manifests, f3.manifests);
    lemma_step(f3.manifests, f4.manifests);
}

proof fn lemma_step<A>(before: Seq<A>, after: Seq<A>)
    requires
        after == before || after.len() > 0 && after == before.push(after.last()),
    ensures
        forall|x: A| #[trigger]
            after.contains(x) <==> before.contains(x) || after.len() > before.len() && x
                == after.last(),
{
    assert forall|x: A| #[trigger] after.contains(x) <==> before.contains(x) || after.len()
        > before.len() && x == after.last() by {
        if before.contains(x) {
            let k = choose|k: int| 0 <= k < before.len() && before[k] == x;
            assert(after[k] == x);
        }
        if after.contains(x) {
            let k = choose|k: int| 0 <= k < after.len() && after[k] == x;
            if k < before.len() {
                assert(before[k] == x);
            }
        }
        if after.len() > before.len() && x == after.last() {
            assert(after[before.len() as int] == x);
        }
    }
}

proof fn lemma_manifest_words_differ()
    ensures
        manifest_languages().no_duplicates(),
        manifest_commands().no_duplicates(),
{
    reveal_strlit("Rust");
    reveal_strlit("JavaScript/TypeScript");
    reveal_strlit("Python");
    reveal_strlit("Go");
    reveal_strlit("cargo test");
    reveal_strlit("npm test");
    reveal_strlit("pytest");
    reveal_strlit("go test ./...");
    assert("Rust"@.len() == 4 && "JavaScript/TypeScript"@.len() == 21 && "Python"@.len() == 6
        && "Go"@.len() == 2);
    assert("cargo test"@.len() == 10 && "npm test"@.len() == 8 && "pytest"@.len() == 6
        && "go test ./..."@.len() == 13);
}

/// The documents and rules of a project: each file that could be read, has no zero byte and is not
/// blank up to the limit is one, with its path and that text, and is cut exactly where the file is
/// longer. No other file is one, and they stand in the order of the files.
pub proof fn law_docs(
    paths: Seq<Seq<char>>,
    contents: Seq<Option<Seq<u8>>>,
    max_bytes: int,
    n: int,
)
    requires
        0 <= n <= paths.len(),
        paths.len() == contents.len(),
        0 <= max_bytes,
    ensures
        docs_upto(paths, contents, max_bytes, n).len() <= n,
        n > 0 ==> docs_upto(paths, contents, max_bytes, n - 1).is_prefix_of(
            docs_upto(paths, contents, max_bytes, n),
        ) && docs_upto(paths, contents, max_bytes, n).len() <= docs_upto(
            paths,
            contents,
            max_bytes,
            n - 1,
        ).len() + 1,
        forall|i: int|
            0 <= i < n && is_doc(#[trigger] contents[i], max_bytes) ==> docs_upto(
                paths,
                contents,
                max_bytes,
                n,
            ).contains(
                Doc {
                    path: paths[i],
                    content: doc_text(contents[i]->Some_0, max_bytes),
                    truncated: contents[i]->Some_0.len() > max_bytes,
                },
            ),
        forall|k: int|
            0 <= k < docs_upto(paths, contents, max_bytes, n).len() ==> exists|i: int|
                0 <= i < n && is_doc(#[trigger] contents[i], max_bytes) && (#[trigger] docs_upto(
                    paths,
                    contents,
                    max_bytes,
                    n,
                )[k]).path == paths[i],
    decreases n,
{
    if n > 0 {
        let before = docs_upto(paths, contents, max_bytes, n - 1);
        let after = docs_upto(paths, contents, max_bytes, n);
        law_docs(paths, contents, max_bytes, n - 1);
        lemma_step(before, after);
        assert forall|k: int| 0 <= k < after.len() implies exists|i: int|
            0 <= i < n && is_doc(#[trigger] contents[i], max_bytes) && (#[trigger] after[k]).path
                == paths[i] by {
            if k < before.len() {
                assert(after[k] == before[k]);
                let i = choose|i: int|
                    0 <= i < n - 1 && is_doc(#[trigger] contents[i], max_bytes) && before[k].path
                        == paths[i];
                assert(is_doc(contents[i], max_bytes));
            } else {
                assert(is_doc(contents[n - 1], max_bytes));
            }
        }
    }
}

/// The text of a file with these bytes, up to a number of bytes.
pub open spec fn doc_text(bytes: Seq<u8>, max_bytes: int) -> Seq<char> {
    trimmed(
        lossy_text(
            if bytes.len() <= max_bytes {
                bytes
            } else {
                bytes.take(max_bytes)
            },
        ),
    )
}

/// Whether a file could be read, has no zero byte, and is not blank up to a number of bytes.
pub open spec fn is_doc(contents: Option<Seq<u8>>, max_bytes: int) -> bool {
    contents matches Some(bytes) && !bytes.contains(0u8) && !is_blank(doc_text(bytes, max_bytes))
}

/// A line that gives a quoted text under a key gives that very text, with any white space around
/// the parts of the line; a line that does not start with the key gives nothing.
pub proof fn law_quoted_value(
    indent: Seq<char>,
    key: Seq<char>,
    gap: Seq<char>,
    value: Seq<char>,
    tail: Seq<char>,
)
    requires
        key.len() > 0,
        !is_white_space(key[0]),
        forall|k: int| 0 <= k < indent.len() ==> is_white_space(#[trigger] indent[k]),
        forall|k: int| 0 <= k < gap.len() ==> is_white_space(#[trigger] gap[k]),
        forall|k: int| 0 <= k < tail.len() ==> is_white_space(#[trigger] tail[k]),
    ensures
        quoted_value(indent + (key + " = "@ + gap + "\""@ + value + "\""@) + tail, key) == Some(
            value,
        ),
        forall|line: Seq<char>|
            !begins_with(trimmed(line), key) ==> #[trigger] quoted_value(line, key) is None,
{
    reveal_strlit("\"");
    reveal_strlit(" = ");
    let quote = "\""@;
    let prefix = key + " = "@;
    let quoted = quote + value + quote;
    let inner = key + " = "@ + gap + quote + value + quote;
    assert(inner =~= prefix + (gap + quoted));
    assert(inner[0] == key[0]);
    assert(inner.last() == '"');
    law_trimmed_keeps(indent, inner, tail);
    assert(inner.take(prefix.len() as int) =~= prefix);
    assert(inner.skip(prefix.len() as int) =~= gap + quoted);
    assert(quoted[0] == '"' && quoted.last() == '"');
    law_trimmed_keeps(gap, quoted, Seq::empty());
    assert(gap + quoted + Seq::<char>::empty() =~= gap + quoted);
    assert(quoted.take(1) =~= quote);
    let rest = quoted.skip(1);
    assert(rest =~= value + quote);
    assert(rest.skip(rest.len() - 1) =~= quote);
    assert(rest.take(quoted.len() - 2) =~= value);
    assert forall|line: Seq<char>| !begins_with(trimmed(line), key) implies #[trigger] quoted_value(
        line,
        key,
    ) is None by {
        if begins_with(trimmed(line), prefix) {
            assert(trimmed(line).take(key.len() as int) =~= trimmed(line).take(
                prefix.len() as int,
            ).take(key.len() as int));
            assert(prefix.take(key.len() as int) =~= key);
        }
    }
}

/// Of the lines that give something the first one counts, and where none gives anything nothing
/// does.
pub proof fn law_first_given(
    lines: Seq<Seq<char>>,
    f: spec_fn(Seq<char>) -> Option<Seq<char>>,
    k: int,
)
    requires
        0 <= k <= lines.len(),
        forall|i: int| 0 <= i < k ==> f(#[trigger] lines[i]) is None,
        k < lines.len() ==> f(lines[k]) is Some,
    ensures
        first_given(lines, f) == (if k < lines.len() {
            f(lines[k])
        } else {
            None
        }),
    decreases k,
{
    if k > 0 {
        let rest = lines.drop_first();
        assert(f(lines[0]) is None);
        assert forall|i: int| 0 <= i < k - 1 implies f(#[trigger] rest[i]) is None by {
            assert(rest[i] == lines[i + 1]);
        }
        if k < lines.len() {
            assert(rest[k - 1] == lines[k]);
        }
        law_first_given(rest, f, k - 1);
    }
}

/// The line of a Go manifest that names the module names it without white space around it.
pub proof fn law_module_value(indent: Seq<char>, module: Seq<char>, tail: Seq<char>)
    requires
        module.len() > 0,
        !is_white_space(module[0]),
        !is_white_space(module.last()),
        forall|k: int| 0 <= k < indent.len() ==> is_white_space(#[trigger] indent[k]),
        forall|k: int| 0 <= k < tail.len() ==> is_white_space(#[trigger] tail[k]),
    ensures
        module_value(indent + ("module "@ + module) + tail) == Some(module),
{
    reveal_strlit("module ");
    let inner = "module "@ + module;
    assert(inner[0] == 'm');
    assert(inner.last() == module.last());
    law_trimmed_keeps(indent, inner, tail);
    assert(inner.take(7) =~= "module "@);
    assert(inner.skip(7) =~= module);
    law_trimmed_keeps(Seq::empty(), module, Seq::empty());
}

/// What the summaries name: the package, project or module where the manifest names one, and of a
/// Cargo workspace that it is one and each of its members.
pub proof fn law_summaries(content: Seq<char>, members: Seq<Seq<char>>, tree: JsonTree)
    ensures
        has_text(content, "[workspace]"@) ==> has_text(
            cargo_summary_with(content, members),
            "Cargo workspace"@,
        ),
        first_given(lines_of(content), quoted_under("name"@)) matches Some(name) ==> has_text(
            cargo_summary_with(content, members),
            "package `"@ + name + "`"@,
        ) && python_summary(content) == "Python project `"@ + name + "`"@,
        first_given(lines_of(content), quoted_under("name"@)) is None ==> python_summary(content)
            == "Python project"@,
        first_given(lines_of(content), module_in_line()) matches Some(name) ==> go_summary(content)
            == "Go module `"@ + name + "`"@,
        first_given(lines_of(content), module_in_line()) is None ==> go_summary(content)
            == "Go module"@,
        forall|i: int|
            0 <= i < members.len() ==> has_text(
                cargo_summary_with(content, members),
                #[trigger] members[i],
            ),
        !has_text(content, "[workspace]"@) && first_given(
            lines_of(content),
            quoted_under("name"@),
        ) is None && members.len() == 0 ==> cargo_summary_with(content, members).len() == 0,
        member(tree, "name"@) matches Some(JsonTree::Text(name)) ==> node_summary_of(Some(tree))
            == "Node package `"@ + name + (if member(tree, "workspaces"@) is Some {
            "` with workspaces"@
        } else {
            "`"@
        }),
        !(member(tree, "name"@) matches Some(JsonTree::Text(_))) ==> node_summary_of(Some(tree))
            == (if member(tree, "workspaces"@) is Some {
            "Node package with workspaces"@
        } else {
            "Node package"@
        }),
        node_summary_of(None) == "Node package"@,
{
    let workspace = has_text(content, "[workspace]"@);
    let name = first_given(lines_of(content), quoted_under("name"@));
    let parts = cargo_parts(workspace, name, members);
    let all = cargo_summary_with(content, members);
    law_joined(parts, "; "@, Seq::empty());
    if workspace {
        assert(parts[0] == "Cargo workspace"@);
    }
    if name is Some {
        let k = if workspace {
            1int
        } else {
            0
        };
        assert(parts[k] == "package `"@ + name->Some_0 + "`"@);
    }
    if members.len() > 0 {
        let listed = joined(members, ", "@);
        let last = parts.last();
        assert(last == "members: "@ + listed);
        assert(parts[parts.len() - 1] == last);
        law_joined(members, ", "@, Seq::empty());
        lemma_has_middle("members: "@, listed, Seq::empty());
        assert("members: "@ + listed + Seq::<char>::empty() =~= last);
        assert forall|i: int| 0 <= i < members.len() implies has_text(all, #[trigger] members[i]) by {
            lemma_has_text_within(last, listed, members[i]);
            lemma_has_text_within(all, last, members[i]);
        }
    }
}

/// What is kept of git: all of a text of at most four thousand bytes, the longest beginning of a
/// longer one that fits, and of the changes to files nothing where they are blank.
pub proof fn law_git_block(block: GitBlock, summary: GitWorktreeSummary)
    requires
        git_block_says(block, summary),
    ensures
        block.branch == summary.branch,
        block.has_changes == summary.has_changes,
        block.changed_files == summary.changed_files,
        byte_count(block.status_short@) <= 4000,
        block.status_short@.is_prefix_of(summary.status_short@),
        byte_count(summary.status_short@) <= 4000 ==> block.status_short@
            == summary.status_short@,
        block.diff_stat matches Some(text) ==> text@.is_prefix_of(summary.diff_stat@) && byte_count(
            text@,
        ) <= 4000 && !is_blank(text@),
        byte_count(summary.diff_stat@) <= 4000 ==> (block.diff_stat is None <==> is_blank(
            summary.diff_stat@,
        )),
        byte_count(summary.diff_stat@) <= 4000 ==> (block.diff_stat matches Some(text) ==> text@
            == summary.diff_stat@),
{
    let i = lemma_byte_prefix(summary.status_short@, 4000);
    let j = lemma_byte_prefix(summary.diff_stat@, 4000);
}

/// A manifest of this name, where `there` holds.
pub open spec fn manifest_if(there: bool, path: Seq<char>, summary: Seq<char>) -> Seq<Manifest> {
    if there {
        seq![Manifest { path, summary }]
    } else {
        Seq::empty()
    }
}

/// The manifests of a project stand in the order of the languages Rust, JavaScript, Python and Go;
/// languages and test commands stand in dictionary order, none twice, one for each manifest.
#[verifier::spinoff_prover]
pub proof fn law_manifest_order(
    block: ProjectBlock,
    repo_root: Seq<char>,
    contents: Seq<Option<Seq<u8>>>,
)
    requires
        contents.len() == 4,
        block_says(block, repo_root, facts_upto(contents, 4)),
    ensures
        ({
            let rust = manifest_text(contents[0]) matches Some(content) && cargo_summary(
                content,
            ).len() > 0;
            let languages = texts(block.detected_languages@);
            let commands = texts(block.test_commands@);
            &&& manifest_views(block.manifests@) == manifest_if(
                rust,
                "Cargo.toml"@,
                cargo_summary(manifest_text(contents[0])->Some_0),
            ) + manifest_if(
                manifest_text(contents[1]) is Some,
                "package.json"@,
                node_summary(manifest_text(contents[1])->Some_0),
            ) + manifest_if(
                manifest_text(contents[2]) is Some,
                "pyproject.toml"@,
                python_summary(manifest_text(contents[2])->Some_0),
            ) + manifest_if(
                manifest_text(contents[3]) is Some,
                "go.mod"@,
                go_summary(manifest_text(contents[3])->Some_0),
            )
            &&& forall|i: int, j: int|
                0 <= i < j < languages.len() ==> text_less(
                    #[trigger] languages[i],
                    #[trigger] languages[j],
                )
            &&& forall|i: int, j: int|
                0 <= i < j < commands.len() ==> text_less(
                    #[trigger] commands[i],
                    #[trigger] commands[j],
                )
            &&& forall|i: int|
                0 <= i < languages.len() ==> seq![
                    "Rust"@,
                    "JavaScript/TypeScript"@,
                    "Python"@,
                    "Go"@,
                ].contains(#[trigger] languages[i])
        }),
{
    reveal_with_fuel(facts_upto, 5);
    lemma_counts(contents);
    lemma_manifest_names_differ();
    let f4 = facts_upto(contents, 4);
    law_sorted_texts(f4.languages);
    law_sorted_texts(f4.commands);
    let languages = texts(block.detected_languages@);
    let commands = texts(block.test_commands@);
    assert forall|i: int, j: int| 0 <= i < j < languages.len() implies text_less(
        #[trigger] languages[i],
        #[trigger] languages[j],
    ) by {
        assert(text_order()(languages[i], languages[j]));
    }
    assert forall|i: int, j: int| 0 <= i < j < commands.len() implies text_less(
        #[trigger] commands[i],
        #[trigger] commands[j],
    ) by {
        assert(text_order()(commands[i], commands[j]));
    }
    let all = seq!["Rust"@, "JavaScript/TypeScript"@, "Python"@, "Go"@];
    assert forall|i: int| 0 <= i < languages.len() implies all.contains(
        #[trigger] languages[i],
    ) by {
        assert(languages.contains(languages[i]));
        assert(f4.languages.contains(languages[i]));
        lemma_known_language(contents, languages[i]);
    }
}

proof fn lemma_known_language(contents: Seq<Option<Seq<u8>>>, language: Seq<char>)
    requires
        facts_upto(contents, 4).languages.contains(language),
    ensures
        seq!["Rust"@, "JavaScript/TypeScript"@, "Python"@, "Go"@].contains(language),
{
    reveal_with_fuel(facts_upto, 5);
    let all = seq!["Rust"@, "JavaScript/TypeScript"@, "Python"@, "Go"@];
    assert(all[0] == "Rust"@ && all[1] == "JavaScript/TypeScript"@ && all[2] == "Python"@ && all[3]
        == "Go"@);
    let f4 = facts_upto(contents, 4);
    let k = choose|k: int| 0 <= k < f4.languages.len() && f4.languages[k] == language;
    assert(manifest_languages()[0] == "Rust"@);
}

/// A summary of a Cargo manifest says that it is a workspace, then the name of its package, then its
/// members, as far as there is any of them, with semicolons between.
pub proof fn law_cargo_summary(content: Seq<char>, members: Seq<Seq<char>>)
    ensures
        ({
            let summary = cargo_summary_with(content, members);
            let workspace = has_text(content, "[workspace]"@);
            let name = first_given(lines_of(content), quoted_under("name"@));
            let list = "members: "@ + joined(members, ", "@);
            &&& workspace && name is None && members.len() == 0 ==> summary == "Cargo workspace"@
            &&& workspace && name is None && members.len() > 0 ==> summary
                == "Cargo workspace"@ + "; "@ + list
            &&& !workspace && name is None && members.len() > 0 ==> summary == list
            &&& name matches Some(package) ==> ({
                let part = "package `"@ + package + "`"@;
                &&& !workspace && members.len() == 0 ==> summary == part
                &&& !workspace && members.len() > 0 ==> summary == part + "; "@ + list
                &&& workspace && members.len() == 0 ==> summary == "Cargo workspace"@ + "; "@
                    + part
                &&& workspace && members.len() > 0 ==> summary == "Cargo workspace"@ + "; "@ + part
                    + "; "@ + list
            })
        }),
{
    let workspace = has_text(content, "[workspace]"@);
    let name = first_given(lines_of(content), quoted_under("name"@));
    let list = "members: "@ + joined(members, ", "@);
    let one = if workspace {
        seq!["Cargo workspace"@]
    } else {
        Seq::empty()
    };
    let sep = "; "@;
    law_joined(one, sep, "Cargo workspace"@);
    if let Some(package) = name {
        let part = "package `"@ + package + "`"@;
        law_joined(one, sep, part);
        assert(one.len() == 0 ==> one.push(part) =~= seq![part]);
        law_joined(one.push(part), sep, list);
    } else {
        law_joined(one, sep, list);
        assert(one.len() == 0 ==> one.push(list) =~= seq![list]);
    }
}

/// What is read of a manifest as a document: the members of a Cargo workspace are those of the
/// document where it is one, and none where it is not; the same holds of a Node package.
pub proof fn law_documents_of_manifests(content: Seq<char>)
    ensures
        toml_read(content) is None ==> workspace_members(content).len() == 0,
        toml_read(content) matches Some(tree) ==> workspace_members(content) == members_in(tree),
        toml_read(content) matches Some(tree) ==> (entry(tree, "workspace"@) is None
            ==> workspace_members(content).len() == 0),
        json_read(content) matches Ok(tree) ==> node_summary(content) == node_summary_of(
            Some(tree),
        ),
        json_read(content) is Err ==> node_summary(content) == "Node package"@,
{
}

} // verus!
