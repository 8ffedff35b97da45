use prompt_pilot::project_root_markers::{
    default_project_root_markers, is_temp_dir_git_entry, needs_head_lookup,
    project_root_marker_exists, project_root_markers_from_config, MarkerConfigError,
    MetadataLookup,
};

fn config(text: &str) -> toml::Value {
    toml::from_str(text).expect("config")
}

#[test]
fn markers_are_read_from_the_configuration() {
    assert_eq!(project_root_markers_from_config(&config("model = \"x\"")), Ok(None));
    assert_eq!(
        project_root_markers_from_config(&config("project_root_markers = []")),
        Ok(Some(Vec::new()))
    );
    assert_eq!(
        project_root_markers_from_config(&config("project_root_markers = [\".git\", \".hg\"]")),
        Ok(Some(vec![".git".to_string(), ".hg".to_string()]))
    );
    for text in ["project_root_markers = \".git\"", "project_root_markers = [\".git\", 1]"] {
        let err = project_root_markers_from_config(&config(text)).expect_err("error");
        assert_eq!(err, MarkerConfigError::NotAnArrayOfStrings);
        assert_eq!(err.message(), "project_root_markers must be an array of strings");
    }
    assert_eq!(
        project_root_markers_from_config(&toml::Value::Boolean(true)),
        Ok(None)
    );
    assert_eq!(default_project_root_markers(), vec![".git".to_string()]);
}

fn directory() -> MetadataLookup<u8> {
    MetadataLookup::Found {
        is_directory: true,
        is_file: false,
    }
}

fn file() -> MetadataLookup<u8> {
    MetadataLookup::Found {
        is_directory: false,
        is_file: true,
    }
}

#[test]
fn an_empty_git_directory_among_temporary_files_is_no_marker() {
    assert!(is_temp_dir_git_entry("/tmp/.git", "/tmp/"));
    assert!(!is_temp_dir_git_entry("/tmp/a/.git", "/tmp"));
    assert!(!is_temp_dir_git_entry("/tmp/.hg", "/tmp"));
    let exists = |marker: &str, path: &str, found, head| {
        project_root_marker_exists(marker, path, "/tmp", found, head)
    };
    assert!(needs_head_lookup(".git", "/tmp/.git", "/tmp", &directory()));
    assert!(!needs_head_lookup(".git", "/tmp/.git", "/tmp", &file()));
    assert_eq!(exists(".git", "/tmp/.git", directory(), file()), Ok(true));
    assert_eq!(exists(".git", "/tmp/.git", directory(), directory()), Ok(false));
    assert_eq!(exists(".git", "/tmp/.git", directory(), MetadataLookup::NotFound), Ok(false));
    assert_eq!(exists(".git", "/tmp/.git", directory(), MetadataLookup::Failed(3)), Err(3));
    assert_eq!(exists(".git", "/tmp/.git", file(), MetadataLookup::NotFound), Ok(true));
    assert_eq!(exists(".git", "/repo/.git", directory(), MetadataLookup::NotFound), Ok(true));
    assert_eq!(exists(".hg", "/tmp/.git", directory(), MetadataLookup::NotFound), Ok(true));
    assert_eq!(exists(".git", "/x/.git", MetadataLookup::NotFound, file()), Ok(false));
    assert_eq!(exists(".git", "/x/.git", MetadataLookup::Failed(7), file()), Err(7));
}
