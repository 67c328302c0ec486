use rialight::filesystem::{
    listing_of, std_io_error_to_file_error, File, FileError, FileScheme, IoErrorKind,
};

#[test]
fn path_creation() {
    // a path without a scheme keeps its form by the rule of Windows only.
    let file = File::new_on_windows("foo");
    assert_eq!(file.native_path().as_str(), "foo");

    assert_eq!(File::new("app://foo.txt").name(), "foo.txt".to_owned());
    assert_eq!(File::new("app://foo.txt").name_without_extension(".txt"), "foo".to_owned());
    assert_eq!(File::new("app://foo.txt").extension(), ".txt".to_owned());
}

#[test]
fn path_relativity() {
    let path = File::new("app://foo/bar").relative_path(&File::new("app://qux/foo"));
    assert_eq!(path.as_str(), "../../qux/foo");

    let file = File::new("app://foo/bar").resolve_path("zxc/../abc");
    assert_eq!(file.url().as_str(), "app://foo/bar/abc");
}

#[test]
fn file_gets_a_root() {
    assert_eq!(File::new("foo").native_path(), "/foo");
    assert_eq!(File::new("//foo//bar/").native_path(), "/foo/bar");
    assert_eq!(File::new("file:///a%20b").native_path(), "/a b");
    assert_eq!(File::new("app-storage://x/../y").url(), "app-storage://y");
    assert_eq!(File::new_on_windows("\\\\foo\\bar").native_path(), "foo/bar");
    assert_eq!(File::new_on_windows("app://foo").native_path(), "/foo");
}

#[test]
fn file_url_escapes() {
    assert_eq!(File::new("/a b").url(), "file://a%20b");
}

#[test]
fn file_same_path_is_a_dot() {
    assert_eq!(File::new("/a/b").relative_path(&File::new("/a/b")), ".");
}

#[test]
fn file_names() {
    assert_eq!(File::new("/foo/bar.txt").name(), "foo/bar.txt");
    assert_eq!(File::new("/").name(), "");
    assert_eq!(File::new_on_windows("foo.txt").name(), "foo.txt");
    assert_eq!(File::new("/foo.txt").name_without_extension(".png"), "foo.txt");
    assert_eq!(File::new("/foo").extension(), "");
    assert_eq!(File::new("/foo.tar.gz").extension(), ".tar.gz");
}

#[test]
fn file_parent() {
    let parent = File::new("app://foo/bar").parent().unwrap();
    assert_eq!(parent.native_path(), "/foo");
    assert_eq!(parent.url(), "app://foo");
    assert!(File::new("/foo").parent().is_none());
    assert!(File::new("/").parent().is_none());
}

#[test]
fn application_directories() {
    assert_eq!(File::application_directory().url(), "app://");
    assert_eq!(File::application_storage_directory().url(), "app-storage://");
    assert_eq!(File::application_directory().native_path(), "");
}

#[test]
fn host_paths() {
    assert_eq!(File::new("/a/b").internal_native_path("/opt/app", false), "/a/b");
    assert_eq!(File::new("app://a/b").internal_native_path("/opt/app", false), "/opt/app/a/b");
    assert_eq!(File::new("app-storage://a").internal_native_path("", false), "/a");
    assert_eq!(File::new("app://a").internal_native_path("C:\\app", true), "C:/app/a");
}

#[test]
fn canonicalized_files() {
    let file = File::new("app://a");
    assert_eq!(file.canonicalized(Some("/x/y".to_string())).url(), "file://x/y");
    assert_eq!(file.canonicalized(None).url(), "app://a");
}

#[test]
fn scheme_prefixes() {
    assert_eq!(FileScheme::File.prefix(), "file:");
    assert_eq!(FileScheme::App.prefix(), "app:");
    assert_eq!(FileScheme::AppStorage.prefix(), "app-storage:");
}

#[test]
fn file_errors() {
    assert_eq!(std_io_error_to_file_error(IoErrorKind::NotFound), FileError::NotFound);
    assert_eq!(
        std_io_error_to_file_error(IoErrorKind::PermissionDenied),
        FileError::PermissionDenied
    );
    assert_eq!(std_io_error_to_file_error(IoErrorKind::StorageFull), FileError::StorageFull);
    assert_eq!(std_io_error_to_file_error(IoErrorKind::FileTooLarge), FileError::FileTooLarge);
    assert_eq!(std_io_error_to_file_error(IoErrorKind::NotADirectory), FileError::NotADirectory);
    assert_eq!(
        std_io_error_to_file_error(IoErrorKind::InvalidFilename),
        FileError::InvalidFilename
    );
    assert_eq!(std_io_error_to_file_error(IoErrorKind::Other), FileError::UnassignedError);
}

#[test]
fn file_of_its_url_is_the_file() {
    for text in [
        "foo",
        "/a b/c",
        "app://foo/../bar baz/",
        "app-storage://x%20y/z",
        "file:///tmp/\u{e9}\u{20ac}.txt",
        "\\a\\b",
        "app://100%/$x#y?z",
        "",
        "/",
        "app://",
    ] {
        let file = File::new(text);
        let again = File::new(&file.url());
        assert_eq!(again, file, "{:?}", text);
        assert!(again.get_scheme() == file.get_scheme());
        assert_eq!(again.native_path(), file.native_path());
        assert!(file.native_path().starts_with('/'));
        assert!(!file.native_path().starts_with("//"));
    }
}

#[test]
fn listing_leaves_out_what_is_no_text() {
    let paths = vec![
        Some("/home/u/b.txt".to_owned()),
        None,
        Some("/home/u/../a".to_owned()),
        None,
        Some("C:\\data\\x".to_owned()),
    ];
    let listing = listing_of(&paths, false);
    assert_eq!(listing.len(), 3);
    assert_eq!(listing[0], File::new("/home/u/b.txt"));
    assert_eq!(listing[1], File::new("/home/a"));
    assert_eq!(listing[1].native_path(), "/home/a");
    assert_eq!(listing[2], File::new("C:\\data\\x"));

    let listing = listing_of(&paths, true);
    assert_eq!(listing.len(), 3);
    assert_eq!(listing[2], File::new_on_windows("C:\\data\\x"));
    assert_eq!(listing[0].native_path(), File::new_on_windows("/home/u/b.txt").native_path());

    assert!(listing_of(&vec![], false).is_empty());
    assert!(listing_of(&vec![None, None], true).is_empty());
}
