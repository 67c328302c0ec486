//! A path to a file or directory.
//!
//! A `File` is made from a path or from a URL of one of three schemes:
//! `file:`, `app:` for the application's installation directory, and
//! `app-storage:` for the application's private directory. The path is
//! resolved when the `File` is made.

use vstd::prelude::*;
use crate::file_paths::extensions::{find_tail, tail_start, Lead};
use crate::file_paths::model::is_separator;
use crate::file_paths::portions::separates;
use crate::path::{relative_chars, relative_spec, resolve_chars, resolve_spec};
use crate::text::{
    append_chars, chars_of, ends_with, has_prefix, has_suffix, slice_of, starts_with, string_of,
};
use crate::uri::{decode_uri, decode_uri_spec, encode_uri, encode_uri_spec};

verus! {

/// The scheme of the URL of a file.
#[derive(Clone, Copy, PartialEq, Eq, Structural, Debug)]
pub enum FileScheme {
    File,
    App,
    AppStorage,
}

/// `file:`.
pub open spec fn file_prefix() -> Seq<char> {
    seq!['f', 'i', 'l', 'e', ':']
}

/// `app:`.
pub open spec fn app_prefix() -> Seq<char> {
    seq!['a', 'p', 'p', ':']
}

/// `app-storage:`.
pub open spec fn app_storage_prefix() -> Seq<char> {
    seq!['a', 'p', 'p', '-', 's', 't', 'o', 'r', 'a', 'g', 'e', ':']
}

/// The text that a URL of `scheme` starts with.
pub open spec fn prefix_of(scheme: FileScheme) -> Seq<char> {
    match scheme {
        FileScheme::File => file_prefix(),
        FileScheme::App => app_prefix(),
        FileScheme::AppStorage => app_storage_prefix(),
    }
}

impl FileScheme {
    /// The text that a URL of this scheme starts with, the colon included.
    pub fn prefix(&self) -> (r: &'static str)
        ensures
            r@ == prefix_of(*self),
    {
        proof {
            reveal_strlit("file:");
            reveal_strlit("app:");
            reveal_strlit("app-storage:");
        }
        let r = match self {
            FileScheme::File => "file:",
            FileScheme::App => "app:",
            FileScheme::AppStorage => "app-storage:",
        };
        assert(r@ =~= prefix_of(*self));
        r
    }
}

/// How many separators `path` starts with.
pub open spec fn leading_separators(path: Seq<char>) -> int
    decreases path.len(),
{
    if path.len() > 0 && is_separator(path[0], true) {
        1 + leading_separators(path.drop_first())
    } else {
        0
    }
}

/// `path` with `mark` in place of the separators at its start, if it starts
/// with any.
pub open spec fn with_lead(path: Seq<char>, mark: Seq<char>) -> Seq<char> {
    let count = leading_separators(path);
    if count > 0 {
        mark + path.skip(count)
    } else {
        path
    }
}

/// `path` with `/` before it, unless it starts with `/`.
pub open spec fn with_root(path: Seq<char>) -> Seq<char> {
    if path.len() > 0 && path[0] == '/' {
        path
    } else {
        seq!['/'] + path
    }
}

/// The scheme that `url_or_path` names, and what follows the scheme with
/// its escapes read; a text that names no scheme is a path of scheme
/// `file:`.
pub open spec fn scheme_and_path(url_or_path: Seq<char>) -> (FileScheme, Seq<char>) {
    if starts_with(url_or_path, file_prefix()) {
        (FileScheme::File, decode_uri_spec(url_or_path.skip(5)))
    } else if starts_with(url_or_path, app_prefix()) {
        (FileScheme::App, decode_uri_spec(url_or_path.skip(4)))
    } else if starts_with(url_or_path, app_storage_prefix()) {
        (FileScheme::AppStorage, decode_uri_spec(url_or_path.skip(12)))
    } else {
        (FileScheme::File, url_or_path)
    }
}

/// The path of the file that `url_or_path` names. The separators at its
/// start become one `/`, a path that starts with none gets one, and the
/// path is resolved. On Windows a path of scheme `file:` loses the
/// separators at its start instead and gets none.
pub open spec fn path_of(url_or_path: Seq<char>, windows: bool) -> Seq<char> {
    let (scheme, raw) = scheme_and_path(url_or_path);
    let rooted = if scheme == FileScheme::File && windows {
        with_lead(raw, Seq::<char>::empty())
    } else {
        with_root(with_lead(raw, seq!['/']))
    };
    resolve_spec(rooted, Seq::<char>::empty())
}

/// `path` with `/` for each `\`.
pub open spec fn forward(path: Seq<char>) -> Seq<char> {
    path.map_values(|c: char| if c == '\\' { '/' } else { c })
}

/// The URL of the file of `scheme` at `path`.
pub open spec fn url_of(scheme: FileScheme, path: Seq<char>) -> Seq<char> {
    prefix_of(scheme) + seq!['/', '/'] + with_lead(
        encode_uri_spec(forward(path)),
        Seq::<char>::empty(),
    )
}

/// Whether `path` holds a separator.
pub open spec fn has_separator(path: Seq<char>) -> bool {
    exists|i: int| 0 <= i < path.len() && is_separator(#[trigger] path[i], true)
}

/// What `name` gives for a file at `path`: the path itself where it holds
/// no separator; else what follows its first separator, or nothing where
/// nothing follows it or a line ends after it.
pub open spec fn name_of(path: Seq<char>) -> Seq<char> {
    if !has_separator(path) {
        path
    } else {
        match tail_start(path, Lead::Separator) {
            Some(start) => path.skip(start + 1),
            None => Seq::<char>::empty(),
        }
    }
}

/// `name` without `extension` at its end, if it ends with it.
pub open spec fn without_suffix(name: Seq<char>, extension: Seq<char>) -> Seq<char> {
    if ends_with(name, extension) {
        name.take(name.len() - extension.len())
    } else {
        name
    }
}

/// What `extension` gives for a file at `path`: the path from its first dot
/// or `\` on, if more follows it and no line ends after it.
pub open spec fn extension_of(path: Seq<char>) -> Seq<char> {
    match tail_start(path, Lead::DotOrBackslash) {
        Some(start) => path.skip(start),
        None => Seq::<char>::empty(),
    }
}

/// Whether a file at `path` has no parent: the path is empty, `.`, `/` or
/// `\`.
pub open spec fn is_top(path: Seq<char>) -> bool {
    path.len() == 0 || path == seq!['.'] || path == seq!['/'] || path == seq!['\\']
}

/// `path` without one separator at its start, if it starts with one.
pub open spec fn without_first_separator(path: Seq<char>) -> Seq<char> {
    if path.len() > 0 && is_separator(path[0], true) {
        path.skip(1)
    } else {
        path
    }
}

/// The path on the host of a file of `scheme` at `path`, where `base` is the
/// directory that the scheme stands for.
pub open spec fn host_path_of(
    scheme: FileScheme,
    path: Seq<char>,
    base: Seq<char>,
    windows: bool,
) -> Seq<char> {
    if scheme == FileScheme::File {
        path
    } else {
        resolve_spec(path_of(base, windows), without_first_separator(path))
    }
}

/// A path to a file or directory.
#[derive(Clone, PartialEq, Eq, Debug)]
pub struct File {
    m_path: String,
    m_scheme: FileScheme,
}

/// Counts the separators at the start of `path`.
fn count_leading_separators(path: &Vec<char>) -> (r: usize)
    ensures
        r == leading_separators(path@),
        r <= path.len(),
{
    let mut i: usize = 0;
    assert(path@.skip(0) == path@);
    while i < path.len() && separates(path[i], true)
        invariant
            0 <= i <= path.len(),
            leading_separators(path@) == i + leading_separators(path@.skip(i as int)),
        decreases path.len() - i,
    {
        assert(path@.skip(i as int)[0] == path@[i as int]);
        assert(path@.skip(i as int).drop_first() == path@.skip(i + 1));
        i += 1;
    }
    proof {
        if i < path.len() {
            assert(path@.skip(i as int)[0] == path@[i as int]);
        }
    }
    i
}

/// `path` with `/`, where `slash` is set, or with nothing in place of the
/// separators at its start.
fn replace_lead(path: &Vec<char>, slash: bool) -> (r: Vec<char>)
    ensures
        r@ == with_lead(path@, if slash {
            seq!['/']
        } else {
            Seq::<char>::empty()
        }),
{
    let count = count_leading_separators(path);
    let mut r: Vec<char> = Vec::new();
    if count > 0 && slash {
        r.push('/');
    }
    let rest = slice_of(path, count, path.len());
    assert(rest@ == path@.skip(count as int));
    assert(path@.skip(0) == path@);
    append_chars(&mut r, &rest);
    r
}

impl File {
    /// The path of the file.
    pub closed spec fn path(&self) -> Seq<char> {
        self.m_path@
    }

    /// The scheme of the file.
    pub closed spec fn scheme(&self) -> FileScheme {
        self.m_scheme
    }

    /// The scheme of the file.
    pub fn get_scheme(&self) -> (r: FileScheme)
        ensures
            r == self.scheme(),
    {
        self.m_scheme
    }

    /// The file at `path` of `scheme`.
    fn at(scheme: FileScheme, path: &Vec<char>) -> (r: File)
        ensures
            r.path() == path@,
            r.scheme() == scheme,
    {
        File { m_path: string_of(path), m_scheme: scheme }
    }

    /// Makes a `File` from a path or URL, by the rule of the given host.
    fn make(url_or_path: &str, windows: bool) -> (r: File)
        ensures
            r.scheme() == scheme_and_path(url_or_path@).0,
            r.path() == path_of(url_or_path@, windows),
    {
        proof {
            reveal_strlit("file:");
            reveal_strlit("app:");
            reveal_strlit("app-storage:");
        }
        let text = chars_of(url_or_path);
        let file_mark = chars_of("file:");
        let app_mark = chars_of("app:");
        let storage_mark = chars_of("app-storage:");
        assert(file_mark@ =~= file_prefix());
        assert(app_mark@ =~= app_prefix());
        assert(storage_mark@ =~= app_storage_prefix());
        let mut scheme = FileScheme::File;
        let raw: Vec<char>;
        if has_prefix(&text, &file_mark) {
            let rest = string_of(&slice_of(&text, 5, text.len()));
            assert(rest@ == url_or_path@.skip(5));
            raw = chars_of(decode_uri(rest.as_str()).as_str());
        } else if has_prefix(&text, &app_mark) {
            let rest = string_of(&slice_of(&text, 4, text.len()));
            assert(rest@ == url_or_path@.skip(4));
            raw = chars_of(decode_uri(rest.as_str()).as_str());
            scheme = FileScheme::App;
        } else if has_prefix(&text, &storage_mark) {
            let rest = string_of(&slice_of(&text, 12, text.len()));
            assert(rest@ == url_or_path@.skip(12));
            raw = chars_of(decode_uri(rest.as_str()).as_str());
            scheme = FileScheme::AppStorage;
        } else {
            raw = text;
        }
        let rooted = if scheme == FileScheme::File && windows {
            replace_lead(&raw, false)
        } else {
            let led = replace_lead(&raw, true);
            if led.len() > 0 && led[0] == '/' {
                led
            } else {
                let mut r: Vec<char> = Vec::new();
                r.push('/');
                append_chars(&mut r, &led);
                r
            }
        };
        let nothing: Vec<char> = Vec::new();
        assert(nothing@ == Seq::<char>::empty());
        File::at(scheme, &resolve_chars(&rooted, &nothing))
    }

    /// Makes a `File` from a path or from a URL of the scheme `file:`, `app:`
    /// or `app-storage:`. The path is resolved and starts with `/`.
    ///
    /// This is the rule of every host but Windows.
    pub fn new(url_or_path: &str) -> (r: File)
        ensures
            r.scheme() == scheme_and_path(url_or_path@).0,
            r.path() == path_of(url_or_path@, false),
    {
        File::make(url_or_path, false)
    }

    /// Makes a `File` by the rule of Windows: as `new` does, but a path of
    /// the scheme `file:` loses the separators at its start and gets none.
    pub fn new_on_windows(url_or_path: &str) -> (r: File)
        ensures
            r.scheme() == scheme_and_path(url_or_path@).0,
            r.path() == path_of(url_or_path@, true),
    {
        File::make(url_or_path, true)
    }

    /// The URL of the file: the scheme, `//`, and the path with `/` for each
    /// `\`, escaped, without the separators at its start.
    pub fn url(&self) -> (r: String)
        ensures
            r@ == url_of(self.scheme(), self.path()),
    {
        let path = chars_of(self.m_path.as_str());
        let mut turned: Vec<char> = Vec::new();
        let mut i: usize = 0;
        while i < path.len()
            invariant
                0 <= i <= path.len(),
                turned@ == forward(path@.take(i as int)),
            decreases path.len() - i,
        {
            let c = path[i];
            turned.push(if c == '\\' {
                '/'
            } else {
                c
            });
            i += 1;
            assert(turned@ =~= forward(path@.take(i as int)));
        }
        assert(path@.take(path.len() as int) == path@);
        let escaped = chars_of(encode_uri(string_of(&turned).as_str()).as_str());
        let mut r = chars_of(self.m_scheme.prefix());
        r.push('/');
        r.push('/');
        assert(r@ == prefix_of(self.m_scheme) + seq!['/', '/']);
        append_chars(&mut r, &replace_lead(&escaped, false));
        string_of(&r)
    }

    /// The full path of the file.
    pub fn native_path(&self) -> (r: String)
        ensures
            r@ == self.path(),
    {
        string_of(&chars_of(self.m_path.as_str()))
    }

    /// Finds the relative path from this file to `another`. Where both are
    /// the same path the result is a single dot.
    pub fn relative_path(&self, another: &File) -> (r: String)
        ensures
            r@ == relative_spec(self.path(), another.path()),
    {
        string_of(
            &relative_chars(&chars_of(self.m_path.as_str()), &chars_of(another.m_path.as_str())),
        )
    }

    /// The file at `arg`, resolved relative to this one.
    pub fn resolve_path(&self, arg: &str) -> (r: File)
        ensures
            r.scheme() == self.scheme(),
            r.path() == resolve_spec(self.path(), arg@),
    {
        File::at(
            self.m_scheme,
            &resolve_chars(&chars_of(self.m_path.as_str()), &chars_of(arg)),
        )
    }

    /// The name of the file: its path where that holds no separator, else
    /// what follows the first separator of the path.
    pub fn name(&self) -> (r: String)
        ensures
            r@ == name_of(self.path()),
    {
        string_of(&File::name_chars(&chars_of(self.m_path.as_str())))
    }

    /// The name of the file at `path`, as characters.
    fn name_chars(path: &Vec<char>) -> (r: Vec<char>)
        ensures
            r@ == name_of(path@),
    {
        let mut i: usize = 0;
        while i < path.len() && !separates(path[i], true)
            invariant
                0 <= i <= path.len(),
                forall|j: int| 0 <= j < i ==> !is_separator(#[trigger] path@[j], true),
            decreases path.len() - i,
        {
            i += 1;
        }
        if i == path.len() {
            let r = slice_of(path, 0, path.len());
            assert(r@ == path@);
            return r;
        }
        assert(is_separator(path@[i as int], true));
        match find_tail(path, Lead::Separator) {
            Some(start) => {
                let r = slice_of(path, start + 1, path.len());
                assert(r@ == path@.skip(start + 1));
                r
            },
            None => Vec::new(),
        }
    }

    /// The name of the file without `extension` at its end, if it ends with
    /// it.
    pub fn name_without_extension(&self, extension: &str) -> (r: String)
        ensures
            r@ == without_suffix(name_of(self.path()), extension@),
    {
        let name = File::name_chars(&chars_of(self.m_path.as_str()));
        let extension = chars_of(extension);
        if has_suffix(&name, &extension) {
            string_of(&slice_of(&name, 0, name.len() - extension.len()))
        } else {
            string_of(&name)
        }
    }

    /// The filename extension, the dot included: the path from its first
    /// dot on.
    pub fn extension(&self) -> (r: String)
        ensures
            r@ == extension_of(self.path()),
    {
        let path = chars_of(self.m_path.as_str());
        match find_tail(&path, Lead::DotOrBackslash) {
            Some(start) => {
                let r = slice_of(&path, start, path.len());
                assert(r@ == path@.skip(start as int));
                string_of(&r)
            },
            None => String::new(),
        }
    }

    /// The directory that holds the file: `..` resolved relative to it. A
    /// file at the top has none.
    pub fn parent(&self) -> (r: Option<File>)
        ensures
            match r {
                Some(parent) => parent.scheme() == self.scheme() && parent.path() == resolve_spec(
                    self.path(),
                    seq!['.', '.'],
                ) && !is_top(parent.path()),
                None => is_top(resolve_spec(self.path(), seq!['.', '.'])),
            },
    {
        proof {
            reveal_strlit("..");
        }
        let up = "..";
        assert(up@ =~= seq!['.', '.']);
        let r = self.resolve_path(up);
        let path = chars_of(r.m_path.as_str());
        let top = path.len() == 0 || (path.len() == 1 && (path[0] == '.' || path[0] == '/'
            || path[0] == '\\'));
        proof {
            if path.len() == 1 {
                assert(path@ =~= seq![path@[0]]);
            }
            assert(top == is_top(path@));
        }
        if top {
            None
        } else {
            Some(r)
        }
    }

    /// The application's installation directory.
    pub fn application_directory() -> (r: File)
        ensures
            r.scheme() == FileScheme::App,
            r.path() == Seq::<char>::empty(),
    {
        File { m_path: String::new(), m_scheme: FileScheme::App }
    }

    /// The application's private directory.
    pub fn application_storage_directory() -> (r: File)
        ensures
            r.scheme() == FileScheme::AppStorage,
            r.path() == Seq::<char>::empty(),
    {
        File { m_path: String::new(), m_scheme: FileScheme::AppStorage }
    }

    /// The path of the file on the host. For a file of the scheme `file:`
    /// that is its path; for another scheme the path is resolved relative to
    /// `base`, the directory that the scheme stands for on this host.
    pub fn internal_native_path(&self, base: &str, windows: bool) -> (r: String)
        ensures
            r@ == host_path_of(self.scheme(), self.path(), base@, windows),
    {
        let path = chars_of(self.m_path.as_str());
        if self.m_scheme == FileScheme::File {
            return string_of(&path);
        }
        let left = File::make(base, windows);
        let right = if path.len() > 0 && separates(path[0], true) {
            let r = slice_of(&path, 1, path.len());
            assert(r@ == path@.skip(1));
            r
        } else {
            path
        };
        string_of(&resolve_chars(&chars_of(left.m_path.as_str()), &right))
    }

    /// The file that canonicalization gives: the file of scheme `file:` at
    /// the path that the host found, or this file where it found none.
    pub fn canonicalized(&self, found: Option<String>) -> (r: File)
        ensures
            match found {
                Some(path) => r.scheme() == FileScheme::File && r.path() == path@,
                None => r.scheme() == self.scheme() && r.path() == self.path(),
            },
    {
        match found {
            Some(path) => File { m_path: path, m_scheme: FileScheme::File },
            None => File { m_path: self.native_path(), m_scheme: self.m_scheme },
        }
    }
}

} // verus!

verus! {

/// The texts of the entries of `paths` that hold one, in their order.
pub open spec fn kept(paths: Seq<Option<String>>) -> Seq<Seq<char>>
    decreases paths.len(),
{
    if paths.len() == 0 {
        Seq::<Seq<char>>::empty()
    } else {
        match paths.last() {
            Some(path) => kept(paths.drop_last()).push(path@),
            None => kept(paths.drop_last()),
        }
    }
}

/// The files of a directory's listing. `paths` holds the path of each entry
/// of the directory as text, or nothing for a path that is no text: such an
/// entry is left out. The others become files by the rule of the given
/// host, in the order of the listing.
pub fn listing_of(paths: &Vec<Option<String>>, windows: bool) -> (r: Vec<File>)
    ensures
        r@.len() == kept(paths@).len(),
        forall|i: int|
            0 <= i < r@.len() ==> (#[trigger] r@[i]).scheme() == scheme_and_path(
                kept(paths@)[i],
            ).0 && r@[i].path() == path_of(kept(paths@)[i], windows),
{
    let mut r: Vec<File> = Vec::new();
    let mut i: usize = 0;
    assert(paths@.take(0) == Seq::<Option<String>>::empty());
    while i < paths.len()
        invariant
            0 <= i <= paths.len(),
            r@.len() == kept(paths@.take(i as int)).len(),
            forall|j: int|
                0 <= j < r@.len() ==> (#[trigger] r@[j]).scheme() == scheme_and_path(
                    kept(paths@.take(i as int))[j],
                ).0 && r@[j].path() == path_of(kept(paths@.take(i as int))[j], windows),
        decreases paths.len() - i,
    {
        proof {
            assert(paths@.take(i + 1).drop_last() == paths@.take(i as int));
            assert(paths@.take(i + 1).last() == paths@[i as int]);
        }
        match &paths[i] {
            Some(path) => {
                r.push(File::make(path.as_str(), windows));
            },
            None => {},
        }
        i += 1;
    }
    assert(paths@.take(paths.len() as int) == paths@);
    r
}

} // verus!
