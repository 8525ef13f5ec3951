use folder_browser::safe_filename_for_matching;
use folder_browser::safe_filename_to_string;

#[test]
fn plain_file_name() {
    assert_eq!(safe_filename_to_string("dir/file.txt"), "file.txt");
    assert_eq!(safe_filename_to_string("file.txt"), "file.txt");
}

#[test]
fn trailing_slash_is_ignored() {
    assert_eq!(safe_filename_to_string("dir/sub/"), "sub");
}

#[test]
fn dot_component_is_skipped() {
    assert_eq!(safe_filename_to_string("foo.txt/."), "foo.txt");
}

#[test]
fn dotdot_path_displays_as_dotdot() {
    assert_eq!(safe_filename_to_string("a/.."), "..");
    assert_eq!(safe_filename_to_string(".."), "..");
}

#[test]
fn root_displays_as_unknown() {
    assert_eq!(safe_filename_to_string("/"), "Unknown");
    assert_eq!(safe_filename_to_string(""), "Unknown");
}

#[test]
fn matching_name_of_ordinary_paths() {
    assert_eq!(safe_filename_for_matching("a/b").as_deref(), Some("b"));
    assert_eq!(safe_filename_for_matching("a/").as_deref(), Some("a"));
}

#[test]
fn no_matching_name_for_dotdot_or_root() {
    assert!(safe_filename_for_matching("..").is_none());
    assert!(safe_filename_for_matching("x/..").is_none());
    assert!(safe_filename_for_matching("/").is_none());
}
