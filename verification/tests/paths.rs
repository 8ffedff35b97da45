use prompt_pilot::ordered::{sort_texts, text_before};
use prompt_pilot::paths::{
    extension, file_name, file_stem, insert_path, is_absolute, join_path, path_before, path_parts,
    path_string, paths_equal, relative_path, strip_base, PathPart,
};
use std::path::{Component, Path, PathBuf};

const SAMPLES: [&str; 26] = [
    "",
    "/",
    "//",
    ".",
    "..",
    "./",
    "a",
    "a/",
    "a/b",
    "a//b",
    "a/./b",
    "./a/b",
    "a/../b",
    "/a",
    "/a/b/",
    "/a/./b",
    "/./a",
    "a.rs",
    ".env",
    ".env.local",
    "src/lib.rs",
    "src/lib.tar.gz",
    "src/.hidden",
    "dir.d/file",
    "name.",
    "/workspace/project/src/lib.rs",
];

fn name_of(path: &Path) -> Option<String> {
    path.file_name().and_then(|name| name.to_str()).map(str::to_string)
}

fn extension_of(path: &Path) -> Option<String> {
    path.extension().and_then(|name| name.to_str()).map(str::to_string)
}

fn stem_of(path: &Path) -> Option<String> {
    path.file_stem().and_then(|name| name.to_str()).map(str::to_string)
}

#[test]
fn paths_are_taken_apart_like_those_of_the_standard_library() {
    for sample in SAMPLES {
        let path = Path::new(sample);
        assert_eq!(is_absolute(sample), path.is_absolute());
        assert_eq!(file_name(sample), name_of(path), "{sample}");
        assert_eq!(extension(sample), extension_of(path), "{sample}");
        assert_eq!(file_stem(sample), stem_of(path), "{sample}");
        let parts = path_parts(sample);
        let wanted: Vec<Component<'_>> = path.components().collect();
        assert_eq!(parts.len(), wanted.len(), "{sample}");
        for (part, component) in parts.iter().zip(wanted) {
            let same = match (part, component) {
                (PathPart::Root, Component::RootDir) => true,
                (PathPart::Current, Component::CurDir) => true,
                (PathPart::Parent, Component::ParentDir) => true,
                (PathPart::Name(name), Component::Normal(other)) => {
                    Some(name.as_str()) == other.to_str()
                }
                _ => false,
            };
            assert!(same, "{sample}");
        }
    }
}

#[test]
fn two_paths_relate_like_those_of_the_standard_library() {
    for a in SAMPLES {
        for b in SAMPLES {
            let (x, y) = (Path::new(a), Path::new(b));
            assert_eq!(paths_equal(a, b), x == y, "{a} {b}");
            assert_eq!(path_before(a, b), x < y, "{a} {b}");
            assert_eq!(join_path(a, b), x.join(y).to_str().unwrap_or(""), "{a} {b}");
            let stripped = x.strip_prefix(y).ok().map(|rest| rest.to_str().unwrap_or("").to_string());
            assert_eq!(strip_base(a, b), stripped, "{a} {b}");
            assert_eq!(text_before(a, b), a < b);
        }
    }
}

#[test]
fn relative_paths() {
    assert_eq!(relative_path("/repo/src/lib.rs", "/repo"), "src/lib.rs");
    assert_eq!(relative_path("/other/lib.rs", "/repo"), "/other/lib.rs");
    assert_eq!(relative_path("/repository", "/repo"), "/repository");
    assert_eq!(path_string("a\\b/c"), "a/b/c");
}

#[test]
fn sorted_lists_hold_each_item_once() {
    let mut paths: Vec<String> = Vec::new();
    for path in ["b/a", "a", "a/b", "./c", "a/", "b//a"] {
        insert_path(&mut paths, path.to_string());
    }
    let mut wanted: Vec<PathBuf> = ["b/a", "a", "a/b", "./c"].iter().map(PathBuf::from).collect();
    wanted.sort();
    let found: Vec<PathBuf> = paths.iter().map(PathBuf::from).collect();
    assert_eq!(found, wanted);
    let words = vec!["b".to_string(), "a".to_string(), "b".to_string(), "B".to_string()];
    assert_eq!(sort_texts(&words), vec!["B".to_string(), "a".to_string(), "b".to_string()]);
}
