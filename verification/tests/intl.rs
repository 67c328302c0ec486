use rialight::intl::{
    direction_of_code, Fallback, Ftl, FtlLoadMethod, FtlOptions, FtlOptionsForAssets,
    HasTextDirection, TextDirection,
};

fn texts(items: &[&str]) -> Vec<String> {
    items.iter().map(|item| item.to_string()).collect()
}

fn fallback(locale: &str, fallbacks: &[&str]) -> Fallback {
    Fallback { locale: locale.to_string(), fallbacks: texts(fallbacks) }
}

fn sorted(mut items: Vec<String>) -> Vec<String> {
    items.sort();
    items
}

fn catalog() -> Ftl {
    let mut assets = FtlOptionsForAssets::new();
    assets
        .source("res/lang")
        .files(texts(&["common", "validation"]))
        .clean_unused(false)
        .load_method(FtlLoadMethod::FileSystem);
    let mut options = FtlOptions::new();
    options
        .default_locale("en-US")
        .supported_locales(texts(&["en-us", "pt-br", "pt", "es", "ja"]))
        .fallbacks(vec![
            fallback("pt-BR", &["pt", "es"]),
            fallback("pt", &["en-US"]),
            fallback("es", &["pt", "en-US"]),
            fallback("ja", &["en-US"]),
        ])
        .assets(&assets);
    Ftl::new(&options)
}

#[test]
fn text_direction_of_codes() {
    for code in [
        "ar", "ara", "arc", "az", "aze", "dv", "div", "he", "heb", "ku", "kur", "fa", "per",
        "fas", "ur", "urd",
    ] {
        assert!(direction_of_code(code) == TextDirection::Rtl);
    }
    for code in ["en", "pt", "ja", "", "AR", "a", "arab"] {
        assert!(direction_of_code(code) == TextDirection::Ltr);
    }
}

#[test]
fn text_direction_of_locales() {
    let arabic: icu::locid::Locale = "ar-EG".parse().unwrap();
    assert!(arabic.text_direction() == TextDirection::Rtl);
    assert!(arabic.id.text_direction() == TextDirection::Rtl);
    assert!(arabic.id.language.text_direction() == TextDirection::Rtl);
    let english: icu::locid::Locale = "en-US".parse().unwrap();
    assert!(english.text_direction() == TextDirection::Ltr);
    let hebrew: icu::locid::LanguageIdentifier = "he".parse().unwrap();
    assert!(hebrew.text_direction() == TextDirection::Rtl);
}

#[test]
fn default_options() {
    let options = FtlOptions::new();
    assert_eq!(options.get_default_locale(), "en");
    assert_eq!(*options.get_supported_locales(), texts(&["en"]));
    assert!(options.get_fallbacks().is_empty());
    assert_eq!(options.get_assets().get_source(), "res/lang");
    assert!(options.get_assets().get_files().is_empty());
    assert!(options.get_assets().get_clean_unused());
    assert!(options.get_assets().get_load_method() == FtlLoadMethod::Http);
}

#[test]
fn options_are_set_one_by_one() {
    let mut assets = FtlOptionsForAssets::new();
    assets.source("lang").files(texts(&["a"])).clean_unused(false);
    assert_eq!(assets.get_source(), "lang");
    assert_eq!(*assets.get_files(), texts(&["a"]));
    assert!(!assets.get_clean_unused());
    assert!(assets.get_load_method() == FtlLoadMethod::Http);
    let mut options = FtlOptions::new();
    options.assets(&assets).default_locale("pt");
    assert_eq!(options.get_default_locale(), "pt");
    assert_eq!(options.get_assets().get_source(), "lang");
    assert_eq!(*options.get_supported_locales(), texts(&["en"]));
}

#[test]
fn catalog_holds_canonical_locales() {
    let ftl = catalog();
    assert_eq!(ftl.supported_locales(), texts(&["en-US", "pt-BR", "pt", "es", "ja"]));
    assert_eq!(ftl.default_locale(), "en-US");
    assert!(ftl.supports_locale("pt-BR"));
    assert!(!ftl.supports_locale("pt-br"));
    assert!(!ftl.supports_locale("fr"));
    assert_eq!(ftl.current_locale(), None);
    assert!(ftl.load_method() == FtlLoadMethod::FileSystem);
}

#[test]
fn catalog_of_any_options() {
    let mut options = FtlOptions::new();
    options.supported_locales(texts(&["en-us", "pt-br"]));
    options.default_locale("EN-us");
    let tried = Ftl::try_new(&options).unwrap();
    let made = Ftl::new(&options);
    assert_eq!(tried.supported_locales(), texts(&["en-US", "pt-BR"]));
    assert_eq!(tried.supported_locales(), made.supported_locales());
    assert_eq!(tried.default_locale(), "en-US");
    assert_eq!(made.default_locale(), "en-US");
    assert_eq!(tried.current_locale(), None);
    assert!(!tried.has_assets("en-US"));
}

#[test]
fn catalog_refuses_a_malformed_locale() {
    let mut options = FtlOptions::new();
    options.supported_locales(texts(&["en", "not a locale"]));
    assert!(Ftl::try_new(&options).is_none());
    let mut options = FtlOptions::new();
    options.default_locale("!!");
    assert!(Ftl::try_new(&options).is_none());
    let mut options = FtlOptions::new();
    options.fallbacks(vec![fallback("en", &["??"])]);
    assert!(Ftl::try_new(&options).is_none());
}

#[test]
fn nothing_is_loaded_at_first() {
    let ftl = catalog();
    assert!(ftl.locale_and_fallbacks().is_empty());
    assert!(ftl.fallbacks().is_empty());
    assert!(!ftl.has_assets("en-US"));
    let mut search = ftl.message_search();
    assert_eq!(search.current(), None);
    search.advance(&ftl, true);
    assert_eq!(search.current(), None);
}

#[test]
fn load_plan_holds_the_locale_and_what_it_reaches() {
    let ftl = catalog();
    let plan = ftl.load_plan(Some("pt-BR"));
    assert_eq!(plan[0], "pt-BR");
    assert_eq!(sorted(plan), texts(&["en-US", "es", "pt", "pt-BR"]));
    assert_eq!(ftl.load_plan(None), texts(&["en-US"]));
    assert_eq!(ftl.try_load_plan(None), Some(texts(&["en-US"])));
    assert_eq!(ftl.try_load_plan(Some("pt-BR")), Some(ftl.load_plan(Some("pt-BR"))));
    assert_eq!(ftl.try_load_plan(Some("fr")), None);
}

#[test]
fn fallbacks_end_where_they_circle() {
    let mut options = FtlOptions::new();
    options.supported_locales(texts(&["en", "pt", "es"])).fallbacks(vec![
        fallback("en", &["pt"]),
        fallback("pt", &["es"]),
        fallback("es", &["en", "pt"]),
    ]);
    let ftl = Ftl::new(&options);
    let plan = ftl.load_plan(Some("en"));
    assert_eq!(plan[0], "en");
    assert_eq!(sorted(plan), texts(&["en", "es", "pt"]));
    let mut output = texts(&["xx"]);
    ftl.enumerate_fallbacks("pt", &mut output);
    assert_eq!(output[0], "xx");
    assert_eq!(sorted(output), texts(&["en", "es", "pt", "xx"]));
}

#[test]
fn last_entry_of_a_locale_counts() {
    let mut options = FtlOptions::new();
    options.supported_locales(texts(&["en", "pt", "es"])).fallbacks(vec![
        fallback("en", &["pt"]),
        fallback("EN", &["es"]),
    ]);
    let ftl = Ftl::new(&options);
    assert_eq!(ftl.load_plan(Some("en")), texts(&["en", "es"]));
}

#[test]
fn resource_paths_of_a_locale() {
    let ftl = catalog();
    assert_eq!(
        ftl.resource_paths("pt-BR"),
        texts(&["res/lang/pt-br/common.ftl", "res/lang/pt-br/validation.ftl"])
    );
    assert_eq!(ftl.try_resource_paths("fr"), None);
    assert_eq!(ftl.try_resource_paths("pt-BR"), Some(ftl.resource_paths("pt-BR")));
    let empty = Ftl::new(&FtlOptions::new());
    assert_eq!(empty.try_resource_paths("fr"), Some(vec![]));
    assert!(empty.resource_paths("fr").is_empty());
}

#[test]
fn finish_load_sets_the_current_locale() {
    let mut ftl = catalog();
    ftl.finish_load("ja", &texts(&["ja", "en-US"]));
    assert_eq!(ftl.current_locale(), Some("ja".to_string()));
    assert!(ftl.has_assets("ja"));
    assert!(ftl.has_assets("en-US"));
    assert_eq!(sorted(ftl.locale_and_fallbacks()), texts(&["en-US", "ja"]));
    assert_eq!(ftl.fallbacks(), texts(&["en-US"]));
    ftl.finish_load("es", &texts(&["es", "pt", "en-US"]));
    assert!(ftl.has_assets("ja"));
    assert!(ftl.has_assets("pt"));
    assert_eq!(ftl.current_locale(), Some("es".to_string()));
}

#[test]
fn finish_load_cleans_unused_assets() {
    let mut options = FtlOptions::new();
    options.supported_locales(texts(&["en", "pt"]));
    let mut ftl = Ftl::new(&options);
    ftl.finish_load("en", &texts(&["en"]));
    ftl.finish_load("pt", &texts(&["pt"]));
    assert!(!ftl.has_assets("en"));
    assert!(ftl.has_assets("pt"));
}

#[test]
fn messages_are_sought_depth_first() {
    let mut ftl = catalog();
    ftl.finish_load("pt-BR", &texts(&["pt-BR", "pt", "es", "en-US"]));
    let mut search = ftl.message_search();
    let mut order = Vec::new();
    while let Some(locale) = search.current() {
        order.push(locale);
        search.advance(&ftl, true);
    }
    assert_eq!(order, texts(&["pt-BR", "pt", "en-US", "es", "pt", "en-US", "en-US"]));
}

#[test]
fn a_locale_without_a_value_ends_its_branch() {
    let mut ftl = catalog();
    ftl.finish_load("pt-BR", &texts(&["pt-BR", "pt", "es", "en-US"]));
    let mut search = ftl.message_search();
    let mut order = Vec::new();
    while let Some(locale) = search.current() {
        let expand = locale != "pt";
        order.push(locale);
        search.advance(&ftl, expand);
    }
    assert_eq!(order, texts(&["pt-BR", "pt", "es", "pt", "en-US"]));
}

#[test]
fn a_copy_of_a_catalog_is_its_own() {
    let mut ftl = catalog();
    let copy = ftl.copy();
    ftl.finish_load("ja", &texts(&["ja", "en-US"]));
    assert_eq!(copy.current_locale(), None);
    assert!(!copy.has_assets("ja"));
    assert_eq!(copy.supported_locales(), ftl.supported_locales());
    assert_eq!(copy.resource_paths("ja"), ftl.resource_paths("ja"));
    assert_eq!(copy.load_plan(Some("pt-BR")), ftl.load_plan(Some("pt-BR")));
}
