use rialight::file_paths::os_based;
use rialight::file_paths::os_based::OsPathManipulation;
use rialight::file_paths::{
    base_name, base_name_without_ext, change_extension, change_last_extension, extension_arg,
    has_extension, has_extensions, relative, resolve, resolve_n, resolve_one,
    resolve_one_without_starting_sep,
};

#[test]
fn mod_test() {
    assert_eq!("a", resolve_n(&["a/b/.."]));
    assert_eq!("a", resolve_n(&["a", "b", ".."]));
    assert_eq!("/a/b", resolve("/c", "/a/b"));
    assert_eq!("a", resolve("a/b", ".."));
    assert_eq!("a/b", resolve_one("a/b/"));
    assert_eq!("a/b", resolve_one("a//b"));
    assert_eq!("", relative("/a/b", "/a/b"));
    assert_eq!("c", relative("/a/b", "/a/b/c"));
    assert_eq!("../../c/d", relative("/a/b", "/c/d"));
    assert_eq!("../c", relative("/a/b", "/a/c"));
    assert!(has_extensions("a.x", &[".x", ".y"]));
    assert_eq!("a.y", change_extension("a.x", ".y"));
    assert_eq!("a.z", change_extension("a.x.y", ".z"));
    assert_eq!("a.z.w", change_extension("a.x.y", ".z.w"));

    assert_eq!("qux.html", base_name("foo/qux.html"));
    assert_eq!("qux", base_name_without_ext("foo/qux.html", &[".html"]));
}

#[test]
fn os_based_test() {
    assert_eq!(
        r"\\Whack/a/Box",
        os_based::resolve_n(&["foo", r"\\Whack////a//Box", "..", "Box"], OsPathManipulation::Windows)
    );
    assert_eq!("C:/a", os_based::resolve("C:/", "a", OsPathManipulation::Windows));
    assert_eq!("D:/", os_based::resolve("C:/", "D:/", OsPathManipulation::Windows));
    assert_eq!("D:/a", os_based::resolve_one("D:/a", OsPathManipulation::Windows));
    assert_eq!("C:/a/f/b", os_based::resolve("a", "C:/a///f//b", OsPathManipulation::Windows));
}

#[test]
fn resolve_n_of_nothing_is_empty() {
    assert_eq!("", resolve_n(&[]));
    assert_eq!("", os_based::resolve_n(&[], OsPathManipulation::Default));
}

#[test]
fn resolve_n_restarts_at_an_absolute_path() {
    assert_eq!("/bar", resolve_n(&["/foo", "/bar"]));
    assert_eq!("a/b/c/d/e", resolve_n(&["a/b", "c/d", "e/f", ".."]));
}

#[test]
fn resolve_works_off_dots_and_backslashes() {
    assert_eq!("a/c", resolve_one("a\\.\\b\\..\\c"));
    assert_eq!("/a", resolve_one("\\a"));
    assert_eq!("", resolve_one("a/../.."));
    assert_eq!("/", resolve_one("/"));
    assert_eq!("", resolve_one(""));
    assert_eq!("a/c", resolve_one_without_starting_sep("/a/b/../c/"));
    assert_eq!("/x/y", resolve("/x", "y"));
    assert_eq!("x", resolve("x", ""));
}

#[test]
fn relative_takes_the_shared_start_only() {
    assert_eq!("../../c/b", relative("/a/b", "/c/b"));
    assert_eq!("..", relative("/a/b", "/a"));
    assert_eq!("../", relative("/a", "/"));
}

#[test]
fn relative_trims_whitespace() {
    assert_eq!("b", relative("/a", "/a/b "));
}

#[test]
fn default_manipulation_is_the_generic_one() {
    assert_eq!("C:/a", os_based::resolve("C:/", "a", OsPathManipulation::Default));
    assert_eq!("/D:", os_based::resolve("/C:", "/D:/", OsPathManipulation::Default));
    assert_eq!("a", os_based::resolve_one("a/b/..", OsPathManipulation::Default));
}

#[test]
fn windows_without_prefix_is_generic() {
    assert_eq!("a/b", os_based::resolve("a", "b", OsPathManipulation::Windows));
    assert_eq!("/b", os_based::resolve("a", "/b", OsPathManipulation::Windows));
}

#[test]
fn extensions() {
    assert_eq!(".x", extension_arg("x"));
    assert_eq!(".x", extension_arg(".x"));
    assert_eq!("a.y", change_extension("a", "y"));
    assert_eq!("a..y", change_extension("a.", "y"));
    assert_eq!("a.x..z", change_extension("a.x..y", "z"));
    assert_eq!("a.z", change_last_extension("a.x", "z"));
    assert_eq!("a.z", change_last_extension("a.x.y", ".z"));
    assert_eq!("a.z", change_last_extension("a", ".z"));
    assert!(has_extension("a.tar.gz", "gz"));
    assert!(has_extension("a.tar.gz", ".tar.gz"));
    assert!(!has_extension("a.tar.gz", ".tar"));
    assert!(!has_extensions("a.x", &[".y", "z"]));
    assert!(!has_extensions("a.x", &[]));
}

#[test]
fn base_names() {
    assert_eq!("", base_name(""));
    assert_eq!("c", base_name("a/b/../c/"));
    assert_eq!("qux", base_name_without_ext("foo/qux.tar.gz", &["gz"]));
    assert_eq!("qux.gz", base_name_without_ext("foo/qux.tar.gz", &[".zip"]));
    assert_eq!("qux", base_name_without_ext("foo/qux", &[".zip"]));
}

#[test]
fn relative_leads_back() {
    for (from, to) in [
        ("/a/b", "/c/d"),
        ("/a/b", "/a/b/c"),
        ("/a/b", "/a/c"),
        ("/a/b", "/a/b"),
        ("/", "/"),
        ("/", "/x/y"),
        ("/x/y", "/"),
        ("/a/./b/../c", "\\a\\d\\"),
        ("/a/b/c", "/a"),
        ("/a", "/a/b/c"),
        ("/a b/c", "/a b/d e"),
    ] {
        let steps = relative(from, to);
        assert_eq!(resolve(from, &steps), resolve_one(to), "{:?} {:?}", from, to);
    }
    assert_eq!(relative("/x/y", "/"), "../../");
    assert_eq!(relative("/", "/x/y"), "../x/y");
}

#[test]
fn relative_is_cut_at_whitespace() {
    assert_eq!(relative("/a", "/a/ b"), "b");
    assert_eq!(resolve("/a", &relative("/a", "/a/ b")), "/a/b");
    assert_eq!(resolve_one("/a/ b"), "/a/ b");
}
