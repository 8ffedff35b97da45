//! The files that mark the root of a project.
use vstd::prelude::*;
use crate::paths::{
    components, file_name, file_name_of, joined_path, law_joined_path, law_name, parent_is,
    same_path, Part,
};
use crate::text::{lemma_texts_push, same_text, texts};
use crate::toml_tree::{entry, toml_get, toml_tree, toml_trees, TomlTree};

verus! {

/// Why the configured markers cannot be used.
#[derive(Clone, Copy, Debug, PartialEq, Eq, Structural)]
pub enum MarkerConfigError {
    /// `project_root_markers` is there and is not an array of strings.
    NotAnArrayOfStrings,
}

impl MarkerConfigError {
    /// The message of the error.
    pub fn message(self) -> (r: &'static str)
        ensures
            r@ == "project_root_markers must be an array of strings"@,
    {
        "project_root_markers must be an array of strings"
    }
}

/// The texts of a list of TOML values; `None` where one of them is no text.
pub open spec fn all_texts(items: Seq<TomlTree>) -> Option<Seq<Seq<char>>>
    decreases items.len(),
{
    if items.len() == 0 {
        Some(Seq::empty())
    } else {
        match (all_texts(items.drop_last()), items.last()) {
            (Some(init), TomlTree::Text(text)) => Some(init.push(text)),
            _ => None,
        }
    }
}

/// The markers that a configuration names: `Ok(None)` where it has no `project_root_markers`, and
/// an error where that entry is not an array of strings.
pub open spec fn configured_markers(config: TomlTree) -> Result<
    Option<Seq<Seq<char>>>,
    MarkerConfigError,
> {
    match entry(config, "project_root_markers"@) {
        None => Ok(None),
        Some(TomlTree::Array(items)) => match all_texts(items) {
            Some(markers) => Ok(Some(markers)),
            None => Err(MarkerConfigError::NotAnArrayOfStrings),
        },
        Some(_) => Err(MarkerConfigError::NotAnArrayOfStrings),
    }
}

proof fn lemma_all_texts_prefix(items: Seq<TomlTree>, k: int)
    requires
        0 <= k <= items.len(),
        all_texts(items.take(k)) is None,
    ensures
        all_texts(items) is None,
    decreases items.len() - k,
{
    if k == items.len() {
        assert(items.take(k) =~= items);
    } else {
        assert(items.take(k + 1).drop_last() =~= items.take(k));
        lemma_all_texts_prefix(items, k + 1);
    }
}

/// Reads `project_root_markers` from a configuration.
///
/// An empty array is `Ok(Some(..))` with no marker: root detection is then switched off.
pub fn project_root_markers_from_config(config: &toml::Value) -> (r: Result<
    Option<Vec<String>>,
    MarkerConfigError,
>)
    ensures
        match configured_markers(toml_tree(*config)) {
            Ok(Some(markers)) => r matches Ok(Some(found)) && texts(found@) == markers,
            Ok(None) => r matches Ok(None),
            Err(err) => r == Err::<Option<Vec<String>>, MarkerConfigError>(err),
        },
{
    broadcast use lemma_texts_push;

    let markers_value = match toml_get(config, "project_root_markers") {
        Some(value) => value,
        None => return Ok(None),
    };
    let entries = match markers_value.as_array() {
        Some(entries) => entries,
        None => return Err(MarkerConfigError::NotAnArrayOfStrings),
    };
    let ghost items = toml_trees(entries@);
    let mut markers: Vec<String> = Vec::new();
    let mut i: usize = 0;
    proof {
        assert(items.take(0) =~= Seq::<TomlTree>::empty());
        assert(texts(markers@) =~= Seq::<Seq<char>>::empty());
    }
    while i < entries.len()
        invariant
            i <= entries@.len(),
            items == toml_trees(entries@),
            configured_markers(toml_tree(*config)) == (match all_texts(items) {
                Some(markers) => Ok::<Option<Seq<Seq<char>>>, MarkerConfigError>(Some(markers)),
                None => Err(MarkerConfigError::NotAnArrayOfStrings),
            }),
            all_texts(items.take(i as int)) == Some(texts(markers@)),
        decreases entries@.len() - i,
    {
        broadcast use lemma_texts_push;

        proof {
            assert(items.take(i + 1).drop_last() =~= items.take(i as int));
            assert(items.take(i + 1).last() == toml_tree(entries@[i as int]));
        }
        match entries[i].as_str() {
            Some(marker) => {
                markers.push(marker.to_owned());
            },
            None => {
                proof {
                    lemma_all_texts_prefix(items, i + 1);
                }
                return Err(MarkerConfigError::NotAnArrayOfStrings);
            },
        }
        i += 1;
    }
    proof {
        assert(items.take(entries@.len() as int) =~= items);
    }
    Ok(Some(markers))
}

/// The markers that name a project root where the configuration names none: `.git` only.
pub fn default_project_root_markers() -> (markers: Vec<String>)
    ensures
        texts(markers@) == seq![".git"@],
{
    let mut markers: Vec<String> = Vec::new();
    markers.push(".git".to_owned());
    proof {
        assert(texts(markers@) =~= seq![".git"@]);
    }
    markers
}

/// What the file system says of a path.
pub enum MetadataLookup<E> {
    /// There is something at the path.
    Found { is_directory: bool, is_file: bool },
    /// There is nothing at the path.
    NotFound,
    /// The file system could not say.
    Failed(E),
}

/// Whether the path is the entry `.git` of the directory `temp_dir` itself.
pub open spec fn is_temp_dir_git(marker_path: Seq<char>, temp_dir: Seq<char>) -> bool {
    &&& file_name_of(marker_path) == Some(".git"@)
    &&& components(marker_path).drop_last() == components(temp_dir)
}

/// Whether the marker counts only where its directory holds a file `HEAD`.
pub open spec fn is_head_needed<E>(
    marker: Seq<char>,
    marker_path: Seq<char>,
    temp_dir: Seq<char>,
    metadata: MetadataLookup<E>,
) -> bool {
    &&& metadata matches MetadataLookup::Found { is_directory, .. } && is_directory
    &&& marker == ".git"@
    &&& is_temp_dir_git(marker_path, temp_dir)
}

/// Whether the path is the entry `.git` of the directory `temp_dir` itself.
pub fn is_temp_dir_git_entry(marker_path: &str, temp_dir: &str) -> (r: bool)
    ensures
        r == is_temp_dir_git(marker_path@, temp_dir@),
{
    match file_name(marker_path) {
        Some(name) => same_text(name.as_str(), ".git") && parent_is(marker_path, temp_dir),
        None => false,
    }
}

/// Whether, after a first look at `marker_path`, its entry `HEAD` is to be looked up too.
pub fn needs_head_lookup<E>(
    marker: &str,
    marker_path: &str,
    temp_dir: &str,
    metadata: &MetadataLookup<E>,
) -> (r: bool)
    ensures
        r == is_head_needed(marker@, marker_path@, temp_dir@, *metadata),
{
    match metadata {
        MetadataLookup::Found { is_directory, .. } => *is_directory && same_text(marker, ".git")
            && is_temp_dir_git_entry(marker_path, temp_dir),
        _ => false,
    }
}

/// Whether a configured marker counts as present, from what the file system says of
/// `marker_path` and of the entry `HEAD` below it.
///
/// A directory `.git` directly in the directory for temporary files counts only where it holds a
/// file `HEAD`: on shared hosts an empty one can lie there by accident. `head` is read in that
/// case only.
pub fn project_root_marker_exists<E>(
    marker: &str,
    marker_path: &str,
    temp_dir: &str,
    metadata: MetadataLookup<E>,
    head: MetadataLookup<E>,
) -> (r: Result<bool, E>)
    ensures
        r == (match metadata {
            MetadataLookup::NotFound => Ok::<bool, E>(false),
            MetadataLookup::Failed(err) => Err(err),
            MetadataLookup::Found { .. } => if is_head_needed(
                marker@,
                marker_path@,
                temp_dir@,
                metadata,
            ) {
                match head {
                    MetadataLookup::Found { is_file, .. } => Ok(is_file),
                    MetadataLookup::NotFound => Ok(false),
                    MetadataLookup::Failed(err) => Err(err),
                }
            } else {
                Ok(true)
            },
        }),
{
    if needs_head_lookup(marker, marker_path, temp_dir, &metadata) {
        return match head {
            MetadataLookup::Found { is_file, .. } => Ok(is_file),
            MetadataLookup::NotFound => Ok(false),
            MetadataLookup::Failed(err) => Err(err),
        };
    }
    match metadata {
        MetadataLookup::Found { .. } => Ok(true),
        MetadataLookup::NotFound => Ok(false),
        MetadataLookup::Failed(err) => Err(err),
    }
}

/// What a configuration says of the markers: nothing where it has no entry for them, the texts of
/// the array in their order where each of its items is a text, and an error for everything else.
pub proof fn law_configured_markers(entries: Map<Seq<char>, TomlTree>, items: Seq<TomlTree>, i: int)
    requires
        0 <= i < items.len(),
    ensures
        !entries.dom().contains("project_root_markers"@) ==> configured_markers(
            TomlTree::Table(entries),
        ) == Ok::<Option<Seq<Seq<char>>>, MarkerConfigError>(None),
        entries.dom().contains("project_root_markers"@) && !(entries["project_root_markers"@]
            is Array) ==> configured_markers(TomlTree::Table(entries)) is Err,
        entries.dom().contains("project_root_markers"@) && entries["project_root_markers"@]
            == TomlTree::Array(items) ==> ({
            let r = configured_markers(TomlTree::Table(entries));
            &&& !(items[i] is Text) ==> r is Err
            &&& (forall|k: int| 0 <= k < items.len() ==> #[trigger] items[k] is Text) ==> (
            r matches Ok(Some(markers)) && markers.len() == items.len() && items[i]
                == TomlTree::Text(markers[i]))
        }),
        entries.dom().contains("project_root_markers"@) && entries["project_root_markers"@]
            == TomlTree::Array(Seq::empty()) ==> (configured_markers(TomlTree::Table(entries))
            matches Ok(Some(markers)) && markers.len() == 0),
{
    lemma_all_texts(items);
}

proof fn lemma_all_texts(items: Seq<TomlTree>)
    ensures
        all_texts(items) is Some <==> forall|k: int|
            0 <= k < items.len() ==> #[trigger] items[k] is Text,
        all_texts(items) matches Some(found) ==> found.len() == items.len() && forall|k: int|
            0 <= k < items.len() ==> #[trigger] items[k] == TomlTree::Text(found[k]),
    decreases items.len(),
{
    if items.len() > 0 {
        let init = items.drop_last();
        lemma_all_texts(init);
        assert(items.last() == items[items.len() - 1]);
        assert forall|k: int| 0 <= k < init.len() implies #[trigger] init[k] == items[k] by {}
        if all_texts(items) is Some {
            let found = all_texts(items)->Some_0;
            assert forall|k: int| 0 <= k < items.len() implies #[trigger] items[k]
                == TomlTree::Text(found[k]) by {
                if k < init.len() {
                    assert(init[k] == items[k]);
                }
            }
        } else if forall|k: int| 0 <= k < items.len() ==> #[trigger] items[k] is Text {
            assert forall|k: int| 0 <= k < init.len() implies #[trigger] init[k] is Text by {
                assert(items[k] is Text);
            }
            assert(false);
        }
    }
}

/// The entry `.git` of a directory is the path that the directory makes with that name, and nothing
/// else is.
pub proof fn law_temp_dir_git(marker_path: Seq<char>, temp_dir: Seq<char>)
    requires
        temp_dir.len() > 0,
    ensures
        is_temp_dir_git(marker_path, temp_dir) <==> same_path(
            marker_path,
            joined_path(temp_dir, ".git"@),
        ),
{
    reveal_strlit(".git");
    reveal_strlit(".");
    reveal_strlit("..");
    law_name(temp_dir, ".git"@);
    law_joined_path(temp_dir, ".git"@);
    let all = components(temp_dir) + seq![Part::Name(".git"@)];
    assert(all.last() == Part::Name(".git"@));
    assert(all.drop_last() =~= components(temp_dir));
    if is_temp_dir_git(marker_path, temp_dir) {
        assert(components(marker_path) =~= all);
    }
}

} // verus!
