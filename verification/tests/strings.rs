use rialight::collections::StringHashMap;
use std::any::Any;
use std::collections::HashMap;
use rialight::number::{comma_separated_decimal, CommaSeparated};
use rialight::string::{CodePointsReader, StringIncognitoFormat};
use rialight::template_string;
use rialight::uri::{
    decode_uri, decode_uri_component, encode_uri, encode_uri_component, octet_to_hex,
};

fn arguments(pairs: &[(&str, &str)]) -> StringHashMap<String> {
    let mut map = StringHashMap::new();
    for (key, value) in pairs {
        map.insert(key.to_string(), value.to_string());
    }
    map
}

#[test]
fn comma() {
    assert_eq!(
        "1,000,000.5",
        comma_separated_decimal(&1_000_000.5f64.to_string()).unwrap()
    );
    assert_eq!(
        "-1,000,000.5",
        comma_separated_decimal(&(-1_000_000.5f64).to_string()).unwrap()
    );
}

#[test]
fn comma_separated_integers() {
    assert_eq!("1,000,000", 1_000_000i64.comma_separated());
    assert_eq!("0", 0u32.comma_separated());
    assert_eq!("999", 999u16.comma_separated());
    assert_eq!("1,000", 1000i32.comma_separated());
    assert_eq!("-1", (-1i16).comma_separated());
    assert_eq!("-12,345", (-12345isize).comma_separated());
    assert_eq!("12,345,678", 12345678usize.comma_separated());
    assert_eq!("18,446,744,073,709,551,615", u64::MAX.comma_separated());
    assert_eq!(
        "340,282,366,920,938,463,463,374,607,431,768,211,455",
        u128::MAX.comma_separated()
    );
    assert_eq!(
        "-170,141,183,460,469,231,731,687,303,715,884,105,728",
        i128::MIN.comma_separated()
    );
}

#[test]
fn comma_separated_decimal_texts() {
    assert_eq!(Some("1,234".to_string()), comma_separated_decimal("1234"));
    assert_eq!(Some("1,234.5".to_string()), comma_separated_decimal("1234.5.6"));
    assert_eq!(Some("12.".to_string()), comma_separated_decimal("12."));
    assert_eq!(None, comma_separated_decimal("inf"));
    assert_eq!(None, comma_separated_decimal(".5"));
}

#[test]
fn code_points_reader_test() {
    let mut reader = CodePointsReader::from("foo");
    assert!(reader.has_remaining());
    assert_eq!(reader.peek_seq(5), "foo");
    assert_eq!(reader.peek_seq(1), "f");
    assert_eq!(reader.peek_or_zero(), 'f');
    for _ in 0..3 {
        reader.next();
    }
    assert_eq!(reader.peek_or_zero(), '\x00');
    assert!(reader.reached_end());
}

#[test]
fn code_points_reader_counts_bytes() {
    let mut reader = CodePointsReader::from("a\u{e9}\u{20ac}\u{1f600}z");
    assert_eq!(reader.index(), 0);
    assert_eq!(reader.next(), Some('a'));
    assert_eq!(reader.index(), 1);
    assert_eq!(reader.next_or_zero(), '\u{e9}');
    assert_eq!(reader.index(), 3);
    assert_eq!(reader.peek(), Some('\u{20ac}'));
    assert_eq!(reader.next(), Some('\u{20ac}'));
    assert_eq!(reader.index(), 6);
    assert_eq!(reader.next(), Some('\u{1f600}'));
    assert_eq!(reader.index(), 10);
    assert_eq!(reader.next(), Some('z'));
    assert_eq!(reader.index(), 0);
    assert_eq!(reader.next(), None);
    assert_eq!(reader.next_or_zero(), '\0');
    assert_eq!(reader.peek(), None);
    assert!(!reader.has_remaining());
}

#[test]
fn code_points_reader_from_index() {
    let reader = CodePointsReader::from_index("hello", 2);
    assert_eq!(reader.peek_seq(10), "llo");
    assert_eq!(reader.index(), 2);
    let reader = CodePointsReader::from_index("hello", 9);
    assert!(reader.reached_end());
    assert_eq!(reader.peek_seq(3), "");
}

#[test]
fn incognito() {
    let user_string = "some user string: {id}";
    assert_eq!("some user string: x", user_string.incognito_format(&arguments(&[("id", "x")])));
    let user_string = r#"some user string: {"id"}"#;
    assert_eq!("some user string: id", user_string.incognito_format(&arguments(&[("id", "x")])));
    let user_string = "some user string: {id}";
    assert_eq!("some user string: None", user_string.incognito_format(&arguments(&[])));
}

#[test]
fn incognito_edges() {
    let args = arguments(&[("a.b-c_$1", "v"), ("x", "y")]);
    assert_eq!("v", "{ a.b-c_$1 }".incognito_format(&args));
    assert_eq!("{", r#"{"{"}"#.incognito_format(&args));
    assert_eq!("{x y}", "{x y}".incognito_format(&args));
    assert_eq!("{}", "{}".incognito_format(&args));
    assert_eq!("{y", "{{x}".incognito_format(&args));
    assert_eq!("", r#"{ "" }"#.incognito_format(&args));
    assert_eq!("{x", "{x".incognito_format(&args));
    assert_eq!("yy", "{x}{\u{a0}x\t}".incognito_format(&args));
}

type AnyMap = HashMap<String, Box<dyn Any>>;

fn any_map(pairs: &[(&str, &'static str)]) -> AnyMap {
    let mut map: AnyMap = HashMap::new();
    for (key, value) in pairs {
        map.insert(key.to_string(), Box::new(*value));
    }
    map
}

fn text_of(argument: &Box<dyn Any>) -> String {
    if let Some(text) = argument.downcast_ref::<String>() {
        return text.clone();
    }
    (*argument.downcast_ref::<&'static str>().unwrap_or(&"None")).to_owned()
}

/// Applies arguments of any type: each is turned into text first.
fn apply_any(
    parameterized: &str,
    map: &AnyMap,
    process: Option<fn(&Box<dyn Any>) -> String>,
) -> String {
    let process = process.unwrap_or(text_of);
    let mut texts = StringHashMap::new();
    for (name, argument) in map {
        texts.insert(name.clone(), process(argument));
    }
    template_string::apply(parameterized, &texts)
}

#[test]
fn template_string() {
    let map = any_map(&[("a", "foo"), ("b", "bar")]);
    assert_eq!(*map[&"a".to_owned()].downcast_ref::<&'static str>().unwrap(), "foo");
    assert_eq!(*map[&"b".to_owned()].downcast_ref::<&'static str>().unwrap(), "bar");
    assert!(map.get(&"c".to_owned()).is_none());

    let applied = apply_any("$<foo-qux>", &any_map(&[("foo-qux", "Fq")]), None);
    assert_eq!(applied, "Fq".to_owned());

    let applied = apply_any(
        "$<foo-qux>",
        &any_map(&[("foo-qux", "Fq")]),
        Some(|v| (*v.downcast_ref::<&'static str>().unwrap()).to_owned()),
    );
    assert_eq!(applied, "Fq".to_owned());

    let applied = apply_any("$<foo-qux>", &any_map(&[]), None);
    assert_eq!(applied, "None".to_owned());
}

#[test]
fn template_string_edges() {
    let args = arguments(&[("a", "foo"), ("b", "bar"), ("a_b", "no")]);
    assert_eq!("foo bar $", template_string::apply("$a $b $$", &args));
    assert_eq!("foo_b", template_string::apply("$a_b", &args));
    assert_eq!("no", template_string::apply("$<a_b>", &args));
    assert_eq!("$<>", template_string::apply("$<>", &args));
    assert_eq!("$<a", template_string::apply("$<a", &args));
    assert_eq!("$", template_string::apply("$", &args));
    assert_eq!("$-", template_string::apply("$-", &args));
    assert_eq!("None", template_string::apply("$c", &args));
}

#[test]
fn uri_encoding() {
    assert_eq!("a%20b", encode_uri("a b"));
    assert_eq!("a/b?c=d&e#f", encode_uri("a/b?c=d&e#f"));
    assert_eq!("a%2Fb%3Fc%3Dd", encode_uri_component("a/b?c=d"));
    assert_eq!("%24", encode_uri("$"));
    assert_eq!("%C3%A9", encode_uri("\u{e9}"));
    assert_eq!("%E2%82%AC", encode_uri_component("\u{20ac}"));
    assert_eq!("-_.!~*'()", encode_uri_component("-_.!~*'()"));
    assert_eq!("0F", octet_to_hex(15));
    assert_eq!("A0", octet_to_hex(160));
}

#[test]
fn uri_decoding() {
    assert_eq!("a b", decode_uri("a%20b"));
    assert_eq!("\u{e9}", decode_uri("%C3%A9"));
    assert_eq!("\u{e9}", decode_uri_component("%c3%a9"));
    assert_eq!("100%", decode_uri("100%"));
    assert_eq!("%zz", decode_uri("%zz"));
    assert_eq!("\u{fffd}", decode_uri("%FF"));
    assert_eq!("a\u{20ac}b", decode_uri("a%E2%82%ACb"));
    assert_eq!("a b", decode_uri(&encode_uri("a b")));
}
