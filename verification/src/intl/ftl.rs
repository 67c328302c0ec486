//! Translation catalogs: which locales one supports, which locales a
//! locale falls back to, and in what order assets are loaded and messages
//! are looked up.
//!
//! A locale is held by its canonical form. Loading the files of a locale
//! and reading a message from them is the host's work; the catalog says
//! what is to be loaded and where a message is to be looked for.

use vstd::prelude::*;
use crate::text::{append_chars, chars_of, same_chars, string_of};
use super::options::{
    copy_text, copy_texts, fallback_views, text_views, AssetsView, Fallback, FallbackView,
    FtlLoadMethod, FtlOptions, OptionsView,
};

verus! {

/// The canonical form of the locale that `text` names, if it names one.
pub uninterp spec fn canonical_form(text: Seq<char>) -> Option<Seq<char>>;

/// `Locale::canonicalize` of ICU: the locale that `text` names, written in
/// its canonical form, or nothing where `text` is no well-formed locale.
#[verifier::external_body]
pub(crate) fn canonical_locale(text: &str) -> (r: Option<String>)
    ensures
        match r {
            Some(canonical) => canonical_form(text@) == Some(canonical@),
            None => canonical_form(text@) is None,
        },
{
    match icu::locid::Locale::canonicalize(text) {
        Ok(canonical) => Some(canonical),
        Err(_) => None,
    }
}

/// The canonical forms of `texts`, if each of them names a locale.
pub open spec fn canonical_forms(texts: Seq<Seq<char>>) -> Option<Seq<Seq<char>>>
    decreases texts.len(),
{
    if texts.len() == 0 {
        Some(Seq::<Seq<char>>::empty())
    } else {
        match (canonical_forms(texts.drop_last()), canonical_form(texts.last())) {
            (Some(init), Some(last)) => Some(init.push(last)),
            _ => None,
        }
    }
}

/// `entries` with each locale in its canonical form, if each of them names
/// a locale.
pub open spec fn canonical_fallbacks(entries: Seq<FallbackView>) -> Option<Seq<FallbackView>>
    decreases entries.len(),
{
    if entries.len() == 0 {
        Some(Seq::<FallbackView>::empty())
    } else {
        match (
            canonical_fallbacks(entries.drop_last()),
            canonical_form(entries.last().locale),
            canonical_forms(entries.last().fallbacks),
        ) {
            (Some(init), Some(locale), Some(fallbacks)) => Some(
                init.push(FallbackView { locale, fallbacks }),
            ),
            _ => None,
        }
    }
}

/// A supported locale and the portion of a path that stands for it: the
/// text by which the options name the locale.
pub struct PathComponent {
    pub locale: String,
    pub component: String,
}

/// What a `PathComponent` holds.
pub struct PathComponentView {
    pub locale: Seq<char>,
    pub component: Seq<char>,
}

impl View for PathComponent {
    type V = PathComponentView;

    open spec fn view(&self) -> PathComponentView {
        PathComponentView { locale: self.locale@, component: self.component@ }
    }
}

/// What `components` hold.
pub open spec fn component_views(components: Seq<PathComponent>) -> Seq<PathComponentView> {
    components.map_values(|component: PathComponent| component@)
}

/// The path components of the locales that `texts` name, given their
/// canonical forms.
pub open spec fn components_of(canonical: Seq<Seq<char>>, texts: Seq<Seq<char>>) -> Seq<
    PathComponentView,
> {
    Seq::new(
        canonical.len(),
        |i: int| PathComponentView { locale: canonical[i], component: texts[i] },
    )
}

/// What a catalog holds.
pub struct FtlView {
    pub current_locale: Option<Seq<char>>,
    pub path_components: Seq<PathComponentView>,
    pub supported_locales: Seq<Seq<char>>,
    pub default_locale: Seq<char>,
    pub fallbacks: Seq<FallbackView>,
    pub loaded: Seq<Seq<char>>,
    pub assets: AssetsView,
}

/// The catalog that `options` describe, if every locale they name is well
/// formed: no locale is loaded yet.
pub open spec fn catalog_of(options: OptionsView) -> Option<FtlView> {
    match (
        canonical_forms(options.supported_locales),
        canonical_fallbacks(options.fallbacks),
        canonical_form(options.default_locale),
    ) {
        (Some(supported), Some(fallbacks), Some(default_locale)) => Some(
            FtlView {
                current_locale: None,
                path_components: components_of(supported, options.supported_locales),
                supported_locales: supported,
                default_locale,
                fallbacks,
                loaded: Seq::<Seq<char>>::empty(),
                assets: options.assets,
            },
        ),
        _ => None,
    }
}

/// The locales that `locale` falls back to directly. Where `locale` has
/// more than one entry, the last one counts.
pub open spec fn fallback_list(fallbacks: Seq<FallbackView>, locale: Seq<char>) -> Seq<Seq<char>>
    decreases fallbacks.len(),
{
    if fallbacks.len() == 0 {
        Seq::<Seq<char>>::empty()
    } else if fallbacks.last().locale == locale {
        fallbacks.last().fallbacks
    } else {
        fallback_list(fallbacks.drop_last(), locale)
    }
}

/// Whether `from` falls back to `to` directly.
pub open spec fn falls_back(fallbacks: Seq<FallbackView>, from: Seq<char>, to: Seq<char>) -> bool {
    fallback_list(fallbacks, from).contains(to)
}

/// Whether `way` is a way along fallbacks: it holds two locales or more,
/// and each of them but the first is a direct fallback of the one before
/// it.
pub open spec fn is_way(fallbacks: Seq<FallbackView>, way: Seq<Seq<char>>) -> bool {
    &&& way.len() >= 2
    &&& forall|i: int|
        0 <= i < way.len() - 1 ==> falls_back(fallbacks, #[trigger] way[i], way[i + 1])
}

/// Whether `to` is a fallback of `from`, directly or through other
/// fallbacks.
pub open spec fn reaches(fallbacks: Seq<FallbackView>, from: Seq<char>, to: Seq<char>) -> bool {
    exists|way: Seq<Seq<char>>|
        #[trigger] is_way(fallbacks, way) && way[0] == from && way.last() == to
}

/// The portion of a path that stands for `locale`. Where `locale` has more
/// than one component, the last one counts.
pub open spec fn component_of(components: Seq<PathComponentView>, locale: Seq<char>) -> Option<
    Seq<char>,
>
    decreases components.len(),
{
    if components.len() == 0 {
        None
    } else if components.last().locale == locale {
        Some(components.last().component)
    } else {
        component_of(components.drop_last(), locale)
    }
}

/// The path of the file `file` of a locale with the path component
/// `component` under `source`.
pub open spec fn resource_path_of(source: Seq<char>, component: Seq<char>, file: Seq<char>) -> Seq<
    char,
> {
    source + seq!['/'] + component + seq!['/'] + file + seq!['.', 'f', 't', 'l']
}

/// The paths of the files `files`.
pub open spec fn resource_paths_of(
    source: Seq<char>,
    component: Seq<char>,
    files: Seq<Seq<char>>,
) -> Seq<Seq<char>> {
    files.map_values(|file: Seq<char>| resource_path_of(source, component, file))
}

/// A catalog of translations.
pub struct Ftl {
    m_current_locale: Option<String>,
    m_locale_to_path_components: Vec<PathComponent>,
    m_supported_locales: Vec<String>,
    m_default_locale: String,
    m_fallbacks: Vec<Fallback>,
    m_loaded: Vec<String>,
    m_assets_source: String,
    m_assets_files: Vec<String>,
    m_assets_clean_unused: bool,
    m_assets_load_method: FtlLoadMethod,
}

impl View for Ftl {
    type V = FtlView;

    closed spec fn view(&self) -> FtlView {
        FtlView {
            current_locale: match self.m_current_locale {
                Some(locale) => Some(locale@),
                None => None,
            },
            path_components: component_views(self.m_locale_to_path_components@),
            supported_locales: text_views(self.m_supported_locales@),
            default_locale: self.m_default_locale@,
            fallbacks: fallback_views(self.m_fallbacks@),
            loaded: text_views(self.m_loaded@),
            assets: AssetsView {
                source: self.m_assets_source@,
                files: text_views(self.m_assets_files@),
                clean_unused: self.m_assets_clean_unused,
                load_method: self.m_assets_load_method,
            },
        }
    }
}

/// True iff `a` and `b` are the same text.
pub(crate) fn same_text(a: &str, b: &str) -> (r: bool)
    ensures
        r == (a@ == b@),
{
    same_chars(&chars_of(a), &chars_of(b))
}

/// True iff `text` is one of `texts`.
pub(crate) fn holds_text(texts: &Vec<String>, text: &str) -> (r: bool)
    ensures
        r == text_views(texts@).contains(text@),
{
    let mut i: usize = 0;
    while i < texts.len()
        invariant
            0 <= i <= texts.len(),
            forall|j: int| 0 <= j < i ==> text_views(texts@)[j] != text@,
        decreases texts.len() - i,
    {
        if same_text(texts[i].as_str(), text) {
            assert(text_views(texts@)[i as int] == text@);
            return true;
        }
        i += 1;
    }
    false
}

/// The canonical forms of `texts`.
fn canonical_locales(texts: &Vec<String>) -> (r: Option<Vec<String>>)
    ensures
        match r {
            Some(locales) => canonical_forms(text_views(texts@)) == Some(text_views(locales@)),
            None => canonical_forms(text_views(texts@)) is None,
        },
{
    let mut r: Vec<String> = Vec::new();
    let mut i: usize = 0;
    assert(text_views(texts@).take(0) == Seq::<Seq<char>>::empty());
    assert(text_views(r@) == Seq::<Seq<char>>::empty());
    while i < texts.len()
        invariant
            0 <= i <= texts.len(),
            canonical_forms(text_views(texts@).take(i as int)) == Some(text_views(r@)),
        decreases texts.len() - i,
    {
        proof {
            assert(text_views(texts@).take(i + 1).drop_last() == text_views(texts@).take(
                i as int,
            ));
            assert(text_views(texts@).take(i + 1).last() == texts@[i as int]@);
        }
        match canonical_locale(texts[i].as_str()) {
            None => {
                proof {
                    lemma_canonical_forms_grow(text_views(texts@), i + 1);
                }
                return None;
            },
            Some(canonical) => {
                let ghost before = text_views(r@);
                r.push(canonical);
                assert(text_views(r@) == before.push(canonical@));
            },
        }
        i += 1;
    }
    assert(text_views(texts@).take(texts.len() as int) == text_views(texts@));
    Some(r)
}

/// Where a leading part of `texts` holds a text that names no locale, so
/// does `texts`.
proof fn lemma_canonical_forms_grow(texts: Seq<Seq<char>>, count: int)
    requires
        0 <= count <= texts.len(),
        canonical_forms(texts.take(count)) is None,
    ensures
        canonical_forms(texts) is None,
    decreases texts.len() - count,
{
    if count < texts.len() {
        assert(texts.take(count + 1).drop_last() == texts.take(count));
        lemma_canonical_forms_grow(texts, count + 1);
    } else {
        assert(texts.take(count) == texts);
    }
}

/// Where a leading part of `entries` holds a text that names no locale, so
/// does `entries`.
proof fn lemma_canonical_fallbacks_grow(entries: Seq<FallbackView>, count: int)
    requires
        0 <= count <= entries.len(),
        canonical_fallbacks(entries.take(count)) is None,
    ensures
        canonical_fallbacks(entries) is None,
    decreases entries.len() - count,
{
    if count < entries.len() {
        assert(entries.take(count + 1).drop_last() == entries.take(count));
        lemma_canonical_fallbacks_grow(entries, count + 1);
    } else {
        assert(entries.take(count) == entries);
    }
}

/// `entries` with each locale in its canonical form.
fn canonical_entries(entries: &Vec<Fallback>) -> (r: Option<Vec<Fallback>>)
    ensures
        match r {
            Some(canonical) => canonical_fallbacks(fallback_views(entries@)) == Some(
                fallback_views(canonical@),
            ),
            None => canonical_fallbacks(fallback_views(entries@)) is None,
        },
{
    let mut r: Vec<Fallback> = Vec::new();
    let mut i: usize = 0;
    assert(fallback_views(entries@).take(0) == Seq::<FallbackView>::empty());
    assert(fallback_views(r@) == Seq::<FallbackView>::empty());
    while i < entries.len()
        invariant
            0 <= i <= entries.len(),
            canonical_fallbacks(fallback_views(entries@).take(i as int)) == Some(
                fallback_views(r@),
            ),
        decreases entries.len() - i,
    {
        proof {
            assert(fallback_views(entries@).take(i + 1).drop_last() == fallback_views(
                entries@,
            ).take(i as int));
            assert(fallback_views(entries@).take(i + 1).last() == entries@[i as int]@);
        }
        let entry = &entries[i];
        let locale = canonical_locale(entry.locale.as_str());
        let fallbacks = canonical_locales(&entry.fallbacks);
        match (locale, fallbacks) {
            (Some(locale), Some(fallbacks)) => {
                let ghost before = fallback_views(r@);
                let ghost added = FallbackView {
                    locale: locale@,
                    fallbacks: text_views(fallbacks@),
                };
                r.push(Fallback { locale, fallbacks });
                assert(fallback_views(r@) == before.push(added));
            },
            _ => {
                proof {
                    lemma_canonical_fallbacks_grow(fallback_views(entries@), i + 1);
                }
                return None;
            },
        }
        i += 1;
    }
    assert(fallback_views(entries@).take(entries.len() as int) == fallback_views(entries@));
    Some(r)
}

impl Ftl {
    /// Makes the catalog that `options` describe. Every locale that the
    /// options name is read and held in its canonical form; the text by
    /// which a supported locale is named becomes the portion of a path that
    /// stands for it. No locale is current and none is loaded yet.
    ///
    /// Every locale that the options name must be well formed: the default
    /// locale, each supported locale, and each locale of the fallbacks.
    /// [`Ftl::try_new`] takes any options.
    pub fn new(options: &FtlOptions) -> (r: Self)
        requires
            catalog_of(options@) is Some,
        ensures
            catalog_of(options@) == Some(r@),
    {
        Ftl::try_new(options).unwrap()
    }

    /// Makes the catalog that `options` describe, as [`Ftl::new`] does.
    /// Where the options name a locale that is not well formed, there is no
    /// catalog.
    pub fn try_new(options: &FtlOptions) -> (r: Option<Self>)
        ensures
            match r {
                Some(ftl) => catalog_of(options@) == Some(ftl@),
                None => catalog_of(options@) is None,
            },
    {
        let texts = options.get_supported_locales();
        let supported = match canonical_locales(texts) {
            Some(supported) => supported,
            None => {
                return None;
            },
        };
        let fallbacks = match canonical_entries(options.get_fallbacks()) {
            Some(fallbacks) => fallbacks,
            None => {
                return None;
            },
        };
        let default_locale = match canonical_locale(options.get_default_locale().as_str()) {
            Some(default_locale) => default_locale,
            None => {
                return None;
            },
        };
        proof {
            lemma_canonical_forms_len(text_views(texts@));
        }
        let mut components: Vec<PathComponent> = Vec::new();
        let mut i: usize = 0;
        while i < supported.len()
            invariant
                0 <= i <= supported.len(),
                supported.len() == texts.len(),
                component_views(components@) == components_of(
                    text_views(supported@),
                    text_views(texts@),
                ).take(i as int),
            decreases supported.len() - i,
        {
            let ghost before = component_views(components@);
            let component = PathComponent {
                locale: copy_text(&supported[i]),
                component: copy_text(&texts[i]),
            };
            let ghost added = component@;
            components.push(component);
            assert(component_views(components@) == before.push(added));
            i += 1;
            assert(component_views(components@) =~= components_of(
                text_views(supported@),
                text_views(texts@),
            ).take(i as int));
        }
        assert(components_of(text_views(supported@), text_views(texts@)).take(
            supported.len() as int,
        ) == components_of(text_views(supported@), text_views(texts@)));
        let assets = options.get_assets();
        let r = Ftl {
            m_current_locale: None,
            m_locale_to_path_components: components,
            m_supported_locales: supported,
            m_default_locale: default_locale,
            m_fallbacks: fallbacks,
            m_loaded: Vec::new(),
            m_assets_source: copy_text(assets.get_source()),
            m_assets_files: copy_texts(assets.get_files()),
            m_assets_clean_unused: assets.get_clean_unused(),
            m_assets_load_method: assets.get_load_method(),
        };
        assert(r@.loaded =~= Seq::<Seq<char>>::empty());
        assert(r@.assets == options@.assets);
        Some(r)
    }
}

/// There are as many canonical forms as texts.
proof fn lemma_canonical_forms_len(texts: Seq<Seq<char>>)
    ensures
        canonical_forms(texts) is Some ==> canonical_forms(texts)->0.len() == texts.len(),
    decreases texts.len(),
{
    if texts.len() > 0 {
        lemma_canonical_forms_len(texts.drop_last());
    }
}

} // verus!

verus! {

/// A list with one more entry holds what it held and that entry.
pub proof fn lemma_push_contains<A>(list: Seq<A>, entry: A, a: A)
    ensures
        list.push(entry).contains(a) <==> list.contains(a) || a == entry,
{
    if list.contains(a) {
        let at = choose|i: int| 0 <= i < list.len() && list[i] == a;
        assert(list.push(entry)[at] == a);
    }
    if a == entry {
        assert(list.push(entry)[list.len() as int] == a);
    }
}

/// One more entry of a list taken is that entry held too.
pub proof fn lemma_take_contains<A>(list: Seq<A>, count: int, a: A)
    requires
        0 <= count < list.len(),
    ensures
        list.take(count + 1).contains(a) <==> list.take(count).contains(a) || a == list[count],
{
    assert(list.take(count + 1) == list.take(count).push(list[count]));
    lemma_push_contains(list.take(count), list[count], a);
}

/// Adds to `output` each of `items` that it does not hold yet.
pub(crate) fn insert_all(output: &mut Vec<String>, items: &Vec<String>)
    ensures
        text_views(old(output)@).is_prefix_of(text_views(final(output)@)),
        text_views(old(output)@).no_duplicates() ==> text_views(final(output)@).no_duplicates(),
        forall|text: Seq<char>|
            text_views(final(output)@).contains(text) <==> text_views(old(output)@).contains(text)
                || text_views(items@).contains(text),
{
    let mut i: usize = 0;
    assert(text_views(items@).take(0) =~= Seq::<Seq<char>>::empty());
    while i < items.len()
        invariant
            0 <= i <= items.len(),
            text_views(old(output)@).is_prefix_of(text_views(output@)),
            text_views(old(output)@).no_duplicates() ==> text_views(output@).no_duplicates(),
            forall|text: Seq<char>|
                text_views(output@).contains(text) <==> text_views(old(output)@).contains(text)
                    || text_views(items@).take(i as int).contains(text),
        decreases items.len() - i,
    {
        let ghost before = text_views(output@);
        let ghost item = text_views(items@)[i as int];
        let held = holds_text(output, items[i].as_str());
        if !held {
            output.push(copy_text(&items[i]));
            proof {
                assert(text_views(output@) =~= before.push(item));
            }
        }
        proof {
            assert forall|text: Seq<char>|
                text_views(output@).contains(text) <==> text_views(old(output)@).contains(text)
                    || text_views(items@).take(i + 1).contains(text) by {
                lemma_take_contains(text_views(items@), i as int, text);
                if !held {
                    lemma_push_contains(before, item, text);
                }
            }
        }
        i += 1;
    }
    assert(text_views(items@).take(items.len() as int) == text_views(items@));
}

impl Ftl {
    /// The locales that the catalog supports, each in its canonical form.
    pub fn supported_locales(&self) -> (r: Vec<String>)
        ensures
            text_views(r@) == self@.supported_locales,
    {
        copy_texts(&self.m_supported_locales)
    }

    /// Whether the catalog supports the locale whose canonical form is
    /// `locale`.
    pub fn supports_locale(&self, locale: &str) -> (r: bool)
        ensures
            r == self@.supported_locales.contains(locale@),
    {
        holds_text(&self.m_supported_locales, locale)
    }

    /// The locale that is loaded, if one is.
    pub fn current_locale(&self) -> (r: Option<String>)
        ensures
            match r {
                Some(locale) => self@.current_locale == Some(locale@),
                None => self@.current_locale is None,
            },
    {
        match &self.m_current_locale {
            Some(locale) => Some(copy_text(locale)),
            None => None,
        }
    }

    /// The locale that is loaded where none is named.
    pub fn default_locale(&self) -> (r: String)
        ensures
            r@ == self@.default_locale,
    {
        copy_text(&self.m_default_locale)
    }

    /// Adds to `output` every locale that `locale` falls back to, directly
    /// or through other fallbacks. A locale that `output` holds already is
    /// not added again.
    pub fn enumerate_fallbacks(&self, locale: &str, output: &mut Vec<String>)
        ensures
            text_views(old(output)@).is_prefix_of(text_views(final(output)@)),
            text_views(old(output)@).no_duplicates() ==> text_views(final(output)@).no_duplicates(),
            forall|text: Seq<char>|
                text_views(final(output)@).contains(text) <==> text_views(old(output)@).contains(
                    text,
                ) || reaches(self@.fallbacks, locale@, text),
    {
        let found = super::fallbacks::reachable(&self.m_fallbacks, locale);
        insert_all(output, &found);
        proof {
            assert forall|text: Seq<char>|
                text_views(output@).contains(text) <==> text_views(old(output)@).contains(text)
                    || reaches(self@.fallbacks, locale@, text) by {
                assert(text_views(found@).contains(text) <==> reaches(
                    self@.fallbacks,
                    locale@,
                    text,
                ));
            }
        }
    }

    /// `locale` and every locale that it falls back to, once each, `locale`
    /// first.
    fn with_fallbacks(&self, locale: &str) -> (r: Vec<String>)
        ensures
            r.len() >= 1,
            r@[0]@ == locale@,
            text_views(r@).no_duplicates(),
            forall|text: Seq<char>|
                text_views(r@).contains(text) <==> text == locale@ || reaches(
                    self@.fallbacks,
                    locale@,
                    text,
                ),
    {
        let mut r: Vec<String> = Vec::new();
        r.push(string_of(&chars_of(locale)));
        assert(text_views(r@) =~= seq![locale@]);
        assert(text_views(r@).no_duplicates());
        assert forall|text: Seq<char>| text_views(r@).contains(text) <==> text == locale@ by {
            if text == locale@ {
                assert(text_views(r@)[0] == text);
            }
        }
        let ghost first = text_views(r@);
        self.enumerate_fallbacks(locale, &mut r);
        assert(text_views(r@)[0] == first[0]);
        r
    }

    /// The locale that is loaded and every locale that it falls back to,
    /// once each; nothing where no locale is loaded.
    pub fn locale_and_fallbacks(&self) -> (r: Vec<String>)
        ensures
            text_views(r@).no_duplicates(),
            forall|text: Seq<char>|
                text_views(r@).contains(text) <==> self@.current_locale is Some && (text
                    == self@.current_locale->0 || reaches(
                    self@.fallbacks,
                    self@.current_locale->0,
                    text,
                )),
    {
        match &self.m_current_locale {
            Some(current) => self.with_fallbacks(current.as_str()),
            None => {
                let r: Vec<String> = Vec::new();
                assert(text_views(r@) =~= Seq::<Seq<char>>::empty());
                r
            },
        }
    }

    /// Every locale that the loaded locale falls back to, once each; nothing
    /// where no locale is loaded.
    pub fn fallbacks(&self) -> (r: Vec<String>)
        ensures
            text_views(r@).no_duplicates(),
            forall|text: Seq<char>|
                text_views(r@).contains(text) <==> self@.current_locale is Some && reaches(
                    self@.fallbacks,
                    self@.current_locale->0,
                    text,
                ),
    {
        match &self.m_current_locale {
            Some(current) => super::fallbacks::reachable(&self.m_fallbacks, current.as_str()),
            None => {
                let r: Vec<String> = Vec::new();
                assert(text_views(r@) =~= Seq::<Seq<char>>::empty());
                r
            },
        }
    }

    /// The locale that `new_locale` names, or the default locale where it
    /// names none.
    pub open spec fn named_locale(&self, new_locale: Option<&str>) -> Seq<char> {
        match new_locale {
            Some(named) => named@,
            None => self@.default_locale,
        }
    }

    /// What is to be loaded to make `new_locale` the current locale, or the
    /// default locale where none is named: that locale first, then every
    /// locale it falls back to.
    ///
    /// The catalog must support the locale. [`Ftl::try_load_plan`] takes any
    /// locale.
    pub fn load_plan(&self, new_locale: Option<&str>) -> (r: Vec<String>)
        requires
            self@.supported_locales.contains(self.named_locale(new_locale)),
        ensures
            r.len() >= 1,
            r@[0]@ == self.named_locale(new_locale),
            text_views(r@).no_duplicates(),
            forall|text: Seq<char>|
                text_views(r@).contains(text) <==> text == self.named_locale(new_locale)
                    || reaches(self@.fallbacks, self.named_locale(new_locale), text),
    {
        let locale = match new_locale {
            Some(named) => string_of(&chars_of(named)),
            None => copy_text(&self.m_default_locale),
        };
        self.with_fallbacks(locale.as_str())
    }

    /// What is to be loaded to make `new_locale` the current locale, as
    /// [`Ftl::load_plan`] tells it. A locale that the catalog does not
    /// support cannot be loaded: there is no plan for it.
    pub fn try_load_plan(&self, new_locale: Option<&str>) -> (r: Option<Vec<String>>)
        ensures
            r is Some <==> self@.supported_locales.contains(self.named_locale(new_locale)),
            match r {
                Some(plan) => {
                    &&& plan.len() >= 1
                    &&& plan@[0]@ == self.named_locale(new_locale)
                    &&& text_views(plan@).no_duplicates()
                    &&& forall|text: Seq<char>|
                        text_views(plan@).contains(text) <==> text == self.named_locale(
                            new_locale,
                        ) || reaches(self@.fallbacks, self.named_locale(new_locale), text)
                },
                None => true,
            },
    {
        let supported = match new_locale {
            Some(named) => self.supports_locale(named),
            None => self.supports_locale(self.m_default_locale.as_str()),
        };
        if supported {
            Some(self.load_plan(new_locale))
        } else {
            None
        }
    }

    /// The portion of a path that stands for `locale`.
    fn component(&self, locale: &str) -> (r: Option<String>)
        ensures
            match r {
                Some(component) => component_of(self@.path_components, locale@) == Some(
                    component@,
                ),
                None => component_of(self@.path_components, locale@) is None,
            },
    {
        let components = &self.m_locale_to_path_components;
        let mut i: usize = components.len();
        assert(component_views(components@).take(i as int) == component_views(components@));
        while i > 0
            invariant
                0 <= i <= components.len(),
                components == &self.m_locale_to_path_components,
                component_of(self@.path_components, locale@) == component_of(
                    component_views(components@).take(i as int),
                    locale@,
                ),
            decreases i,
        {
            proof {
                assert(component_views(components@).take(i as int).drop_last() == component_views(
                    components@,
                ).take(i - 1));
                assert(component_views(components@).take(i as int).last() == components@[i
                    - 1]@);
            }
            i -= 1;
            if same_text(components[i].locale.as_str(), locale) {
                return Some(copy_text(&components[i].component));
            }
        }
        None
    }

    /// Whether the files of `locale` can be told: the catalog has no files,
    /// or it holds the portion of a path that stands for `locale`.
    pub open spec fn has_resources(&self, locale: Seq<char>) -> bool {
        self@.assets.files.len() == 0 || component_of(self@.path_components, locale) is Some
    }

    /// The paths of the files of `locale`: for each file of the catalog, the
    /// source, the path component of the locale and the name of the file
    /// with the extension `.ftl`, with `/` between them. A catalog without
    /// files gives no paths.
    ///
    /// With files, the catalog must hold the path component of the locale.
    /// [`Ftl::try_resource_paths`] takes any locale.
    pub fn resource_paths(&self, locale: &str) -> (r: Vec<String>)
        requires
            self.has_resources(locale@),
        ensures
            if self@.assets.files.len() == 0 {
                r.len() == 0
            } else {
                text_views(r@) == resource_paths_of(
                    self@.assets.source,
                    component_of(self@.path_components, locale@)->0,
                    self@.assets.files,
                )
            },
    {
        let mut paths: Vec<String> = Vec::new();
        if self.m_assets_files.len() == 0 {
            return paths;
        }
        let component = chars_of(self.component(locale).unwrap().as_str());
        let source = chars_of(self.m_assets_source.as_str());
        let ghost wanted = resource_paths_of(source@, component@, text_views(self.m_assets_files@));
        let mut i: usize = 0;
        while i < self.m_assets_files.len()
            invariant
                0 <= i <= self.m_assets_files.len(),
                wanted == resource_paths_of(
                    source@,
                    component@,
                    text_views(self.m_assets_files@),
                ),
                text_views(paths@) == wanted.take(i as int),
            decreases self.m_assets_files.len() - i,
        {
            let ghost before = text_views(paths@);
            let mut path: Vec<char> = Vec::new();
            append_chars(&mut path, &source);
            path.push('/');
            append_chars(&mut path, &component);
            path.push('/');
            append_chars(&mut path, &chars_of(self.m_assets_files[i].as_str()));
            path.push('.');
            path.push('f');
            path.push('t');
            path.push('l');
            proof {
                assert(path@ =~= resource_path_of(
                    source@,
                    component@,
                    self.m_assets_files@[i as int]@,
                ));
                assert(wanted[i as int] == path@);
            }
            paths.push(string_of(&path));
            i += 1;
            assert(text_views(paths@) =~= before.push(path@));
            assert(wanted.take(i as int) =~= wanted.take(i - 1).push(wanted[i - 1]));
        }
        assert(wanted.take(self.m_assets_files.len() as int) == wanted);
        paths
    }

    /// The paths of the files of `locale`, as [`Ftl::resource_paths`] tells
    /// them. With files, a locale without a path component has none.
    pub fn try_resource_paths(&self, locale: &str) -> (r: Option<Vec<String>>)
        ensures
            r is Some <==> self.has_resources(locale@),
            match r {
                Some(paths) => if self@.assets.files.len() == 0 {
                    paths.len() == 0
                } else {
                    text_views(paths@) == resource_paths_of(
                        self@.assets.source,
                        component_of(self@.path_components, locale@)->0,
                        self@.assets.files,
                    )
                },
                None => true,
            },
    {
        if self.m_assets_files.len() == 0 || self.component(locale).is_some() {
            Some(self.resource_paths(locale))
        } else {
            None
        }
    }

    /// Whether the assets of `locale` are loaded.
    pub fn has_assets(&self, locale: &str) -> (r: bool)
        ensures
            r == self@.loaded.contains(locale@),
    {
        holds_text(&self.m_loaded, locale)
    }

    /// Takes note that the assets of the locales `loaded` have been loaded
    /// and makes `locale` the current locale. Where unused assets are
    /// cleaned, only `loaded` count as loaded from now on; else they are
    /// added to those that were loaded before.
    pub fn finish_load(&mut self, locale: &str, loaded: &Vec<String>)
        ensures
            final(self)@.current_locale == Some(locale@),
            final(self)@.path_components == old(self)@.path_components,
            final(self)@.supported_locales == old(self)@.supported_locales,
            final(self)@.default_locale == old(self)@.default_locale,
            final(self)@.fallbacks == old(self)@.fallbacks,
            final(self)@.assets == old(self)@.assets,
            forall|text: Seq<char>|
                final(self)@.loaded.contains(text) <==> text_views(loaded@).contains(text) || (
                !old(self)@.assets.clean_unused && old(self)@.loaded.contains(text)),
    {
        if self.m_assets_clean_unused {
            self.m_loaded = Vec::new();
            assert(text_views(self.m_loaded@) =~= Seq::<Seq<char>>::empty());
        }
        insert_all(&mut self.m_loaded, loaded);
        self.m_current_locale = Some(string_of(&chars_of(locale)));
    }

    /// A copy of the catalog.
    pub fn copy(&self) -> (r: Self)
        ensures
            r@ == self@,
    {
        let mut components: Vec<PathComponent> = Vec::new();
        let mut i: usize = 0;
        while i < self.m_locale_to_path_components.len()
            invariant
                0 <= i <= self.m_locale_to_path_components.len(),
                component_views(components@) == component_views(
                    self.m_locale_to_path_components@,
                ).take(i as int),
            decreases self.m_locale_to_path_components.len() - i,
        {
            let component = &self.m_locale_to_path_components[i];
            let ghost before = component_views(components@);
            let copy = PathComponent {
                locale: copy_text(&component.locale),
                component: copy_text(&component.component),
            };
            assert(copy@ == component@);
            components.push(copy);
            i += 1;
            assert(component_views(components@) =~= before.push(component@));
            assert(component_views(self.m_locale_to_path_components@).take(i as int)
                =~= component_views(self.m_locale_to_path_components@).take(i - 1).push(
                component@,
            ));
        }
        assert(component_views(self.m_locale_to_path_components@).take(
            self.m_locale_to_path_components.len() as int,
        ) == component_views(self.m_locale_to_path_components@));
        let mut fallbacks: Vec<Fallback> = Vec::new();
        let mut j: usize = 0;
        while j < self.m_fallbacks.len()
            invariant
                0 <= j <= self.m_fallbacks.len(),
                fallback_views(fallbacks@) == fallback_views(self.m_fallbacks@).take(j as int),
            decreases self.m_fallbacks.len() - j,
        {
            let fallback = &self.m_fallbacks[j];
            let ghost before = fallback_views(fallbacks@);
            let copy = Fallback {
                locale: copy_text(&fallback.locale),
                fallbacks: copy_texts(&fallback.fallbacks),
            };
            assert(copy@ == fallback@);
            fallbacks.push(copy);
            j += 1;
            assert(fallback_views(fallbacks@) =~= before.push(fallback@));
            assert(fallback_views(self.m_fallbacks@).take(j as int) =~= fallback_views(
                self.m_fallbacks@,
            ).take(j - 1).push(fallback@));
        }
        assert(fallback_views(self.m_fallbacks@).take(self.m_fallbacks.len() as int)
            == fallback_views(self.m_fallbacks@));
        Ftl {
            m_current_locale: match &self.m_current_locale {
                Some(locale) => Some(copy_text(locale)),
                None => None,
            },
            m_locale_to_path_components: components,
            m_supported_locales: copy_texts(&self.m_supported_locales),
            m_default_locale: copy_text(&self.m_default_locale),
            m_fallbacks: fallbacks,
            m_loaded: copy_texts(&self.m_loaded),
            m_assets_source: copy_text(&self.m_assets_source),
            m_assets_files: copy_texts(&self.m_assets_files),
            m_assets_clean_unused: self.m_assets_clean_unused,
            m_assets_load_method: self.m_assets_load_method,
        }
    }

    /// How the files of the catalog are loaded.
    pub fn load_method(&self) -> (r: FtlLoadMethod)
        ensures
            r == self@.assets.load_method,
    {
        self.m_assets_load_method
    }

    /// Starts the search for a message: the first locale to ask is the one
    /// that is loaded.
    pub fn message_search(&self) -> (r: MessageSearch)
        ensures
            r@ == match self@.current_locale {
                Some(locale) => seq![locale],
                None => Seq::<Seq<char>>::empty(),
            },
    {
        let mut pending: Vec<String> = Vec::new();
        match &self.m_current_locale {
            Some(locale) => {
                pending.push(copy_text(locale));
                assert(text_views(pending@) =~= seq![locale@]);
            },
            None => {
                assert(text_views(pending@) =~= Seq::<Seq<char>>::empty());
            },
        }
        MessageSearch { pending }
    }
}

/// The search for a message through a locale and its fallbacks: a locale is
/// asked first, then its fallbacks in their order, each with its own
/// fallbacks before the next.
pub struct MessageSearch {
    pending: Vec<String>,
}

impl View for MessageSearch {
    type V = Seq<Seq<char>>;

    /// The locales that are still to be asked, the next one last.
    closed spec fn view(&self) -> Seq<Seq<char>> {
        text_views(self.pending@)
    }
}

impl MessageSearch {
    /// The locale to ask now, if one is left.
    pub fn current(&self) -> (r: Option<String>)
        ensures
            match r {
                Some(locale) => self@.len() > 0 && locale@ == self@.last(),
                None => self@.len() == 0,
            },
    {
        if self.pending.len() == 0 {
            None
        } else {
            Some(copy_text(&self.pending[self.pending.len() - 1]))
        }
    }

    /// Goes on after the locale that was asked did not give the message.
    /// Where `expand` is set, its fallbacks are asked next, in their order
    /// and before the locales that were already waiting; else they are left
    /// out. With no locale left nothing changes.
    pub fn advance(&mut self, ftl: &Ftl, expand: bool)
        ensures
            final(self)@ == if old(self)@.len() == 0 {
                old(self)@
            } else if expand {
                old(self)@.drop_last() + fallback_list(
                    ftl@.fallbacks,
                    old(self)@.last(),
                ).reverse()
            } else {
                old(self)@.drop_last()
            },
    {
        let ghost waiting = text_views(self.pending@);
        match self.pending.pop() {
            None => {},
            Some(locale) => {
                let ghost rest = text_views(self.pending@);
                proof {
                    assert(rest =~= waiting.drop_last());
                    assert(waiting.last() == locale@);
                }
                if expand {
                    let fallbacks = super::fallbacks::direct_fallbacks(
                        &ftl.m_fallbacks,
                        locale.as_str(),
                    );
                    let ghost list = text_views(fallbacks@);
                    let mut i: usize = fallbacks.len();
                    proof {
                        assert(list.skip(i as int).reverse() =~= Seq::<Seq<char>>::empty());
                    }
                    while i > 0
                        invariant
                            0 <= i <= fallbacks.len(),
                            list == text_views(fallbacks@),
                            text_views(self.pending@) == rest + list.skip(i as int).reverse(),
                        decreases i,
                    {
                        let ghost before = text_views(self.pending@);
                        i -= 1;
                        let fallback = copy_text(&fallbacks[i]);
                        self.pending.push(fallback);
                        proof {
                            assert(text_views(self.pending@) =~= before.push(list[i as int]));
                            assert(list.skip(i as int).reverse() =~= list.skip(
                                i + 1,
                            ).reverse().push(list[i as int]));
                        }
                    }
                    proof {
                        assert(list.skip(0) == list);
                    }
                }
            },
        }
    }
}

} // verus!
