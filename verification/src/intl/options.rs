//! The options that a translation catalog is made with.

use vstd::prelude::*;
use crate::text::{chars_of, string_of};

verus! {

/// How the files of a catalog are loaded.
#[derive(Clone, Copy, PartialEq, Eq, Structural, Debug)]
pub enum FtlLoadMethod {
    FileSystem,
    Http,
}

/// The character sequences of `texts`.
pub open spec fn text_views(texts: Seq<String>) -> Seq<Seq<char>> {
    texts.map_values(|text: String| text@)
}

/// A copy of `text`.
pub fn copy_text(text: &String) -> (r: String)
    ensures
        r@ == text@,
{
    string_of(&chars_of(text.as_str()))
}

/// A copy of `texts`.
pub fn copy_texts(texts: &Vec<String>) -> (r: Vec<String>)
    ensures
        text_views(r@) == text_views(texts@),
{
    let mut r: Vec<String> = Vec::new();
    let mut i: usize = 0;
    while i < texts.len()
        invariant
            0 <= i <= texts.len(),
            text_views(r@) == text_views(texts@).take(i as int),
        decreases texts.len() - i,
    {
        let ghost before = text_views(r@);
        let copy = copy_text(&texts[i]);
        r.push(copy);
        i += 1;
        assert(text_views(r@) =~= before.push(texts@[i - 1]@));
        assert(text_views(texts@).take(i as int) =~= text_views(texts@).take(i - 1).push(
            texts@[i - 1]@,
        ));
    }
    assert(text_views(texts@).take(texts.len() as int) == text_views(texts@));
    r
}

/// Where the files of a catalog are found and how they are loaded.
#[derive(Clone, Debug)]
pub struct FtlOptionsForAssets {
    m_source: String,
    m_files: Vec<String>,
    m_clean_unused: bool,
    m_load_method: FtlLoadMethod,
}

/// What `FtlOptionsForAssets` holds.
pub struct AssetsView {
    pub source: Seq<char>,
    pub files: Seq<Seq<char>>,
    pub clean_unused: bool,
    pub load_method: FtlLoadMethod,
}

impl View for FtlOptionsForAssets {
    type V = AssetsView;

    closed spec fn view(&self) -> AssetsView {
        AssetsView {
            source: self.m_source@,
            files: text_views(self.m_files@),
            clean_unused: self.m_clean_unused,
            load_method: self.m_load_method,
        }
    }
}

/// The options that a new `FtlOptionsForAssets` holds: the directory
/// `res/lang`, no files, unused assets are cleaned, and files come by HTTP.
pub open spec fn default_assets() -> AssetsView {
    AssetsView {
        source: seq!['r', 'e', 's', '/', 'l', 'a', 'n', 'g'],
        files: Seq::<Seq<char>>::empty(),
        clean_unused: true,
        load_method: FtlLoadMethod::Http,
    }
}

impl FtlOptionsForAssets {
    /// The default options.
    pub fn new() -> (r: Self)
        ensures
            r@ == default_assets(),
    {
        proof {
            reveal_strlit("res/lang");
        }
        let source = string_of(&chars_of("res/lang"));
        assert(source@ =~= default_assets().source);
        let r = FtlOptionsForAssets {
            m_source: source,
            m_files: Vec::new(),
            m_clean_unused: true,
            m_load_method: FtlLoadMethod::Http,
        };
        assert(r@.files =~= default_assets().files);
        r
    }

    /// Sets the directory or URL under which the files are found.
    pub fn source(&mut self, src: &str) -> (r: &mut Self)
        ensures
            r@ == (AssetsView { source: src@, ..old(self)@ }),
            *final(self) == *final(r),
    {
        self.m_source = string_of(&chars_of(src));
        self
    }

    /// Sets the names of the files, without their extension.
    pub fn files(&mut self, list: Vec<String>) -> (r: &mut Self)
        ensures
            r@ == (AssetsView { files: text_views(list@), ..old(self)@ }),
            *final(self) == *final(r),
    {
        self.m_files = list;
        self
    }

    /// Sets whether the assets of locales that are no longer used are
    /// dropped when a locale is loaded.
    pub fn clean_unused(&mut self, value: bool) -> (r: &mut Self)
        ensures
            r@ == (AssetsView { clean_unused: value, ..old(self)@ }),
            *final(self) == *final(r),
    {
        self.m_clean_unused = value;
        self
    }

    /// Sets how the files are loaded.
    pub fn load_method(&mut self, value: FtlLoadMethod) -> (r: &mut Self)
        ensures
            r@ == (AssetsView { load_method: value, ..old(self)@ }),
            *final(self) == *final(r),
    {
        self.m_load_method = value;
        self
    }

    /// A copy of these options.
    pub fn copy(&self) -> (r: Self)
        ensures
            r@ == self@,
    {
        let r = FtlOptionsForAssets {
            m_source: copy_text(&self.m_source),
            m_files: copy_texts(&self.m_files),
            m_clean_unused: self.m_clean_unused,
            m_load_method: self.m_load_method,
        };
        r
    }
}

} // verus!

verus! {

/// The locales to fall back to, for one locale.
pub struct Fallback {
    pub locale: String,
    pub fallbacks: Vec<String>,
}

/// What a `Fallback` holds.
pub struct FallbackView {
    pub locale: Seq<char>,
    pub fallbacks: Seq<Seq<char>>,
}

impl View for Fallback {
    type V = FallbackView;

    open spec fn view(&self) -> FallbackView {
        FallbackView { locale: self.locale@, fallbacks: text_views(self.fallbacks@) }
    }
}

/// What `entries` hold.
pub open spec fn fallback_views(entries: Seq<Fallback>) -> Seq<FallbackView> {
    entries.map_values(|entry: Fallback| entry@)
}

/// The options that a translation catalog is made with.
pub struct FtlOptions {
    m_default_locale: String,
    m_supported_locales: Vec<String>,
    m_fallbacks: Vec<Fallback>,
    m_assets: FtlOptionsForAssets,
}

/// What `FtlOptions` holds.
pub struct OptionsView {
    pub default_locale: Seq<char>,
    pub supported_locales: Seq<Seq<char>>,
    pub fallbacks: Seq<FallbackView>,
    pub assets: AssetsView,
}

impl View for FtlOptions {
    type V = OptionsView;

    closed spec fn view(&self) -> OptionsView {
        OptionsView {
            default_locale: self.m_default_locale@,
            supported_locales: text_views(self.m_supported_locales@),
            fallbacks: fallback_views(self.m_fallbacks@),
            assets: self.m_assets@,
        }
    }
}

/// The locale `en`.
pub open spec fn english() -> Seq<char> {
    seq!['e', 'n']
}

/// The options that a new `FtlOptions` holds: `en` is the default locale and
/// the only one supported, there are no fallbacks, and the assets have
/// their default options.
pub open spec fn default_options() -> OptionsView {
    OptionsView {
        default_locale: english(),
        supported_locales: seq![english()],
        fallbacks: Seq::<FallbackView>::empty(),
        assets: default_assets(),
    }
}

impl FtlOptions {
    /// The default options.
    pub fn new() -> (r: Self)
        ensures
            r@ == default_options(),
    {
        proof {
            reveal_strlit("en");
        }
        let default_locale = string_of(&chars_of("en"));
        let supported = string_of(&chars_of("en"));
        assert(default_locale@ =~= english());
        let mut supported_locales: Vec<String> = Vec::new();
        supported_locales.push(supported);
        let r = FtlOptions {
            m_default_locale: default_locale,
            m_supported_locales: supported_locales,
            m_fallbacks: Vec::new(),
            m_assets: FtlOptionsForAssets::new(),
        };
        assert(r@.supported_locales =~= default_options().supported_locales);
        assert(r@.fallbacks =~= default_options().fallbacks);
        r
    }

    /// Sets the locale that is loaded where none is named.
    pub fn default_locale(&mut self, value: &str) -> (r: &mut Self)
        ensures
            r@ == (OptionsView { default_locale: value@, ..old(self)@ }),
            *final(self) == *final(r),
    {
        self.m_default_locale = string_of(&chars_of(value));
        self
    }

    /// Sets the locales that the catalog supports.
    pub fn supported_locales(&mut self, list: Vec<String>) -> (r: &mut Self)
        ensures
            r@ == (OptionsView { supported_locales: text_views(list@), ..old(self)@ }),
            *final(self) == *final(r),
    {
        self.m_supported_locales = list;
        self
    }

    /// Sets, for each locale in `map`, the locales to fall back to. Where a
    /// locale occurs twice, its last entry counts.
    pub fn fallbacks(&mut self, map: Vec<Fallback>) -> (r: &mut Self)
        ensures
            r@ == (OptionsView { fallbacks: fallback_views(map@), ..old(self)@ }),
            *final(self) == *final(r),
    {
        self.m_fallbacks = map;
        self
    }

    /// Sets the options of the assets to a copy of `options`.
    pub fn assets(&mut self, options: &FtlOptionsForAssets) -> (r: &mut Self)
        ensures
            r@ == (OptionsView { assets: options@, ..old(self)@ }),
            *final(self) == *final(r),
    {
        self.m_assets = options.copy();
        self
    }

    /// The locale that is loaded where none is named.
    pub fn get_default_locale(&self) -> (r: &String)
        ensures
            r@ == self@.default_locale,
    {
        &self.m_default_locale
    }

    /// The locales that the catalog supports.
    pub fn get_supported_locales(&self) -> (r: &Vec<String>)
        ensures
            text_views(r@) == self@.supported_locales,
    {
        &self.m_supported_locales
    }

    /// The fallbacks.
    pub fn get_fallbacks(&self) -> (r: &Vec<Fallback>)
        ensures
            fallback_views(r@) == self@.fallbacks,
    {
        &self.m_fallbacks
    }

    /// The options of the assets.
    pub fn get_assets(&self) -> (r: &FtlOptionsForAssets)
        ensures
            r@ == self@.assets,
    {
        &self.m_assets
    }
}

impl FtlOptionsForAssets {
    /// The directory or URL under which the files are found.
    pub fn get_source(&self) -> (r: &String)
        ensures
            r@ == self@.source,
    {
        &self.m_source
    }

    /// The names of the files, without their extension.
    pub fn get_files(&self) -> (r: &Vec<String>)
        ensures
            text_views(r@) == self@.files,
    {
        &self.m_files
    }

    /// Whether unused assets are dropped when a locale is loaded.
    pub fn get_clean_unused(&self) -> (r: bool)
        ensures
            r == self@.clean_unused,
    {
        self.m_clean_unused
    }

    /// How the files are loaded.
    pub fn get_load_method(&self) -> (r: FtlLoadMethod)
        ensures
            r == self@.load_method,
    {
        self.m_load_method
    }
}

} // verus!
