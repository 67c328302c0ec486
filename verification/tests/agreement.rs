//! The functions that scan texts by hand give what the regular expressions
//! of the same grammar give.

use lazy_regex::regex::{Captures, Regex};
use rialight::collections::StringHashMap;
use rialight::file_paths;
use rialight::file_paths::os_based::{self, OsPathManipulation};
use rialight::number::CommaSeparated;
use rialight::string::CodePointsReader;
use rialight::filesystem::File;
use rialight::string::StringIncognitoFormat;
use rialight::{app_config, path, template_string, uri};

/// Every text of up to `max` characters of `alphabet`.
fn texts_over(alphabet: &[char], max: usize) -> Vec<String> {
    let mut all = vec![String::new()];
    let mut last = vec![String::new()];
    for _ in 0..max {
        let mut next = Vec::new();
        for text in &last {
            for c in alphabet {
                let mut longer = text.clone();
                longer.push(*c);
                next.push(longer);
            }
        }
        all.extend(next.iter().cloned());
        last = next;
    }
    all
}

/// The patterns of paths, compiled once.
struct Patterns {
    separator: Regex,
    start: Regex,
}

fn patterns() -> Patterns {
    Patterns {
        separator: Regex::new(r"[/\\]").unwrap(),
        start: Regex::new(r"^[/\\]").unwrap(),
    }
}

fn resolve_without_start(patterns: &Patterns, path: &str) -> String {
    let mut kept = Vec::<String>::new();
    for portion in patterns.separator.split(path) {
        if portion == "." {
            continue;
        } else if portion == ".." {
            kept.pop();
        } else if !portion.is_empty() {
            kept.push(portion.to_owned());
        }
    }
    kept.join("/")
}

fn resolve_one_by_regex(patterns: &Patterns, path: &str) -> String {
    let body = resolve_without_start(patterns, path);
    if patterns.start.is_match(path) {
        "/".to_owned() + &body
    } else {
        body
    }
}

fn resolve_by_regex(patterns: &Patterns, path1: &str, path2: &str) -> String {
    let starts = &patterns.start;
    if starts.is_match(path2) {
        return resolve_one_by_regex(patterns, path2);
    }
    let first = resolve_without_start(patterns, path1);
    let body = if path2.is_empty() {
        first
    } else {
        resolve_without_start(patterns, &(first + "/" + path2))
    };
    if starts.is_match(path1) {
        "/".to_owned() + &body
    } else {
        body
    }
}

/// The relative path as the removal of the shared portions gives it, for
/// portions that are shared at the start only.
fn relative_of_parts(patterns: &Patterns, from: &str, to: &str) -> Option<String> {
    let from_parts: Vec<&str> = patterns.separator.split(from).collect();
    let to_parts: Vec<&str> = patterns.separator.split(to).collect();
    let mut shared = Vec::new();
    for i in 0..from_parts.len().min(to_parts.len()) {
        if from_parts[i] == to_parts[i] {
            shared.push(i);
        }
    }
    if shared.iter().enumerate().any(|(at, i)| at != *i) {
        return None;
    }
    let mut steps: Vec<String> = Vec::new();
    for _ in shared.len()..from_parts.len() {
        steps.push("..".to_owned());
    }
    for part in &to_parts[shared.len()..] {
        steps.push((*part).to_owned());
    }
    Some(steps.join("/").trim().to_owned())
}

#[test]
fn resolution_agrees() {
    let patterns = &patterns();
    let paths = texts_over(&['a', '.', '/', '\\', ' '], 6);
    for path in &paths {
        assert_eq!(
            file_paths::resolve_one(path),
            resolve_one_by_regex(patterns, path),
            "{:?}",
            path
        );
        assert_eq!(
            path::resolve_single_path(path),
            resolve_without_start(patterns, path),
            "{:?}",
            path
        );
    }
    let short = texts_over(&['a', '.', '/', '\\'], 3);
    for first in &short {
        for second in &short {
            assert_eq!(
                file_paths::resolve(first, second),
                resolve_by_regex(patterns, first, second),
                "{:?} {:?}",
                first,
                second
            );
        }
    }
}

#[test]
fn relative_agrees() {
    let patterns = &patterns();
    let short = texts_over(&['a', 'b', '.', '/', ' '], 3);
    let mut compared = 0;
    for first in &short {
        for second in &short {
            let from = "/".to_owned() + first;
            let to = "/".to_owned() + second;
            let expected = relative_of_parts(
                patterns,
                &resolve_one_by_regex(patterns, &from),
                &resolve_one_by_regex(patterns, &to),
            );
            if let Some(expected) = expected {
                assert_eq!(file_paths::relative(&from, &to), expected, "{:?} {:?}", from, to);
                compared += 1;
            }
            let expected = relative_of_parts(
                patterns,
                &resolve_without_start(patterns, first),
                &resolve_without_start(patterns, second),
            );
            if let Some(expected) = expected {
                let expected = if expected.is_empty() { ".".to_owned() } else { expected };
                assert_eq!(path::relative(first, second), expected, "{:?} {:?}", first, second);
            }
        }
    }
    assert!(compared > 1000);
}

#[test]
fn extensions_agree() {
    let chain = Regex::new(r"(\.[^\.]+)+$").unwrap();
    let tail = Regex::new(r"(\..+)$").unwrap();
    for path in texts_over(&['a', '.', '/', '\n'], 7) {
        let expected = if chain.find(&path).is_none() {
            path.clone() + ".x"
        } else {
            chain.replace(&path, |_: &Captures| ".x").into_owned()
        };
        assert_eq!(file_paths::change_extension(&path, "x"), expected, "{:?}", path);
        let expected = if tail.find(&path).is_none() {
            path.clone() + ".x"
        } else {
            tail.replace(&path, |_: &Captures| ".x").into_owned()
        };
        assert_eq!(file_paths::change_last_extension(&path, ".x"), expected, "{:?}", path);
    }
}

#[test]
fn base_names_agree() {
    let patterns = &patterns();
    let chain = Regex::new(r"(\.[^\.]+)+$").unwrap();
    for path in texts_over(&['a', 'b', '.', '/'], 7) {
        let resolved = resolve_one_by_regex(patterns, &path);
        let base = resolved.split('/').last().unwrap_or("");
        assert_eq!(file_paths::base_name(&path), base, "{:?}", path);
        let extensions = vec![".a".to_owned(), ".ab".to_owned()];
        let expected = chain
            .replace(base, |found: &Captures| {
                let last = found.get(1).unwrap().as_str();
                if extensions.iter().any(|extension| extension == last) {
                    "".to_owned()
                } else {
                    last.to_owned()
                }
            })
            .into_owned();
        assert_eq!(
            file_paths::base_name_without_ext(&path, &["a", ".ab"]),
            expected,
            "{:?}",
            path
        );
    }
}

#[test]
fn file_names_agree() {
    let patterns = &patterns();
    let any_separator = &patterns.separator;
    let after_separator = Regex::new(r"[\\/].+$").unwrap();
    let from_dot = Regex::new(r"[\\.].+$").unwrap();
    let lead = Regex::new(r"^[\\/]+").unwrap();
    for text in texts_over(&['a', '.', '/', '\\', '\n'], 6) {
        let file = File::new(&text);
        let rooted = lead.replace(&text, |_: &Captures| "/").into_owned();
        let rooted = if rooted.starts_with('/') { rooted } else { "/".to_owned() + &rooted };
        let path = if rooted.starts_with('/') {
            "/".to_owned() + &resolve_without_start(patterns, &rooted)
        } else {
            resolve_without_start(patterns, &rooted)
        };
        assert_eq!(file.native_path(), path, "{:?}", text);
        let name = if !any_separator.is_match(&path) {
            path.clone()
        } else {
            after_separator.find(&path).map(|found| found.as_str()).unwrap_or("/")[1..].to_owned()
        };
        assert_eq!(file.name(), name, "{:?}", text);
        let extension = from_dot.find(&path).map(|found| found.as_str()).unwrap_or("");
        assert_eq!(file.extension(), extension, "{:?}", text);
        let windows = File::new_on_windows(&text);
        let stripped = lead.replace(&text, |_: &Captures| "").into_owned();
        assert_eq!(
            windows.native_path(),
            resolve_without_start(patterns, &stripped),
            "{:?}",
            text
        );
    }
}

fn escape_by_regex(pattern: &str, text: &str) -> String {
    Regex::new(pattern)
        .unwrap()
        .replace_all(text, |found: &Captures| {
            let mut escaped = String::new();
            for byte in found.get(0).unwrap().as_str().bytes() {
                escaped.push('%');
                escaped.push_str(&format!("{:02X}", byte));
            }
            escaped
        })
        .into_owned()
}

fn unescape_by_regex(runs: &Regex, text: &str) -> String {
    runs.replace_all(text, |found: &Captures| {
        let run = found.get(0).unwrap().as_str().as_bytes();
        let mut bytes = Vec::new();
        let mut i = 0;
        while i != run.len() {
            let digits = String::from_utf8_lossy(&run[i + 1..i + 3]).into_owned();
            bytes.push(u8::from_str_radix(&digits, 16).unwrap_or(0));
            i += 3;
        }
        String::from_utf8_lossy(&bytes).into_owned()
    })
    .into_owned()
}

#[test]
fn uri_agrees() {
    let mut every = String::new();
    for code in 0u32..0x250 {
        if let Some(c) = char::from_u32(code) {
            every.push(c);
        }
    }
    every.push('\u{20ac}');
    every.push('\u{1f600}');
    assert_eq!(
        uri::encode_uri(&every),
        escape_by_regex(r"[^A-Za-z0-9\-_\.!\~*'();/?:@&=+&,\#]", &every)
    );
    assert_eq!(
        uri::encode_uri_component(&every),
        escape_by_regex(r"[^A-Za-z0-9\-_\.!~*'()]", &every)
    );
    assert_eq!(uri::decode_uri(&uri::encode_uri(&every)), every);
    assert_eq!(uri::decode_uri_component(&uri::encode_uri_component(&every)), every);
    let runs = Regex::new(r"(%[A-Fa-f0-9]{2})+").unwrap();
    for text in texts_over(&['%', 'f', 'C', '3', 'g'], 6) {
        assert_eq!(uri::decode_uri(&text), unescape_by_regex(&runs, &text), "{:?}", text);
    }
    for text in ["%E2%82%AC", "%e2%82", "%F0%9F%98%80", "%C3%28", "a%41%zz%42", "%%41", "%4"] {
        assert_eq!(uri::decode_uri(text), unescape_by_regex(&runs, text), "{:?}", text);
    }
}

fn arguments() -> StringHashMap<String> {
    let mut map = StringHashMap::new();
    map.insert("a".to_string(), "<A>".to_string());
    map.insert("a-a".to_string(), "<AA>".to_string());
    map.insert("aa".to_string(), "<2>".to_string());
    map
}

#[test]
fn incognito_agrees() {
    let pattern = Regex::new(
        r#"(?x)
            \{\s*(
                ([a-zA-Z_0-9\-\.\$]+)   | # parameter
                ("([^\u{22}])*")          # escaped
            )\s*\}
            "#,
    )
    .unwrap();
    let arguments = arguments();
    for text in texts_over(&['{', '}', 'a', '-', '"', ' '], 6) {
        let expected = pattern
            .replace_all(&text, |found: &Captures| {
                let inner = found.get(1).unwrap().as_str();
                if inner.starts_with('"') {
                    return inner[1..inner.len() - 1].to_owned();
                }
                arguments.get(inner).map_or("None".to_owned(), |value| value.clone())
            })
            .into_owned();
        assert_eq!(text.as_str().incognito_format(&arguments), expected, "{:?}", text);
    }
}

#[test]
fn template_agrees() {
    let pattern = Regex::new(r"\$(\$|[A-Za-z0-9]+|<[A-Za-z0-9\-_]+>)").unwrap();
    let marks = Regex::new(r"[$<>]").unwrap();
    let arguments = arguments();
    for text in texts_over(&['$', '<', '>', 'a', '-', ' '], 6) {
        let expected = pattern
            .replace_all(&text, |found: &Captures| {
                let whole = found.get(0).unwrap().as_str();
                if whole == "$$" {
                    "$".to_owned()
                } else {
                    let name = marks.replace_all(whole, |_: &Captures| "").into_owned();
                    arguments.get(&name).map_or("None".to_owned(), |value| value.clone())
                }
            })
            .into_owned();
        assert_eq!(template_string::apply(&text, &arguments), expected, "{:?}", text);
    }
}

#[test]
fn application_ids_agree() {
    let pattern = Regex::new(r"[a-zA-Z0-9][a-zA-Z\-0-9.]*").unwrap();
    for text in texts_over(&['a', 'Z', '0', '-', '.', '_', ' ', '\u{e9}'], 4) {
        assert_eq!(app_config::is_id_valid(&text), pattern.is_match(&text), "{:?}", text);
    }
}

#[test]
fn whitespace_is_that_of_the_standard_library() {
    for code in 0u32..0x11_0000 {
        if let Some(c) = char::from_u32(code) {
            let text = format!("{}x{}", c, c);
            let from = "/a".to_owned();
            let to = format!("/a/{}", text);
            let expected = if c == '/' || c == '\\' {
                "x".to_owned()
            } else if c == '.' {
                ".x.".to_owned()
            } else {
                text.trim().to_owned()
            };
            assert_eq!(file_paths::relative(&from, &to), expected, "{:?}", c);
        }
    }
}

fn windows_prefix() -> Regex {
    Regex::new(
        r#"(?x)
    ^ (
        (\\\\)       | # UNC prefix
        ([A-Za-z]\:)   # drive prefix
    )
"#,
    )
    .unwrap()
}

fn windows_resolve_by_regex(
    patterns: &Patterns,
    prefix: &Regex,
    path1: &str,
    path2: &str,
) -> String {
    let paths = [path1.to_owned(), path2.to_owned()];
    let prefixed: Vec<String> =
        paths.iter().filter(|path| prefix.is_match(path)).cloned().collect();
    if prefixed.is_empty() {
        return resolve_by_regex(patterns, path1, path2);
    }
    let found = prefix.find(prefixed.last().unwrap()).map(|m| m.as_str().to_owned()).unwrap();
    let bare: Vec<String> =
        paths.iter().map(|path| prefix.replace(path, |_: &Captures| "/").into_owned()).collect();
    let resolved = resolve_by_regex(patterns, &bare[0], &bare[1]);
    if found == r"\\" {
        return r"\\".to_owned() + &resolved[1..];
    }
    found + &resolved
}

#[test]
fn windows_resolution_agrees() {
    let patterns = &patterns();
    let prefix = &windows_prefix();
    let short = texts_over(&['a', 'C', ':', '/', '\\', '.'], 4);
    for first in short.iter().step_by(7) {
        for second in short.iter().step_by(11) {
            assert_eq!(
                os_based::resolve(first, second, OsPathManipulation::Windows),
                windows_resolve_by_regex(patterns, prefix, first, second),
                "{:?} {:?}",
                first,
                second
            );
        }
    }
    for path in &short {
        assert_eq!(
            os_based::resolve_one(path, OsPathManipulation::Windows),
            windows_resolve_by_regex(patterns, prefix, path, ""),
            "{:?}",
            path
        );
        assert_eq!(
            os_based::resolve_n(&[path.as_str(), "C:/x", path.as_str()], OsPathManipulation::Windows),
            windows_resolve_by_regex(
                patterns,
                prefix,
                &windows_resolve_by_regex(patterns, prefix, path, "C:/x"),
                path
            ),
            "{:?}",
            path
        );
    }
}

fn grouped_by_index(digits: &str) -> String {
    let rest = digits.len() % 3;
    let mut grouped = String::new();
    for (i, digit) in digits.char_indices() {
        if i != 0 && i % 3 == rest {
            grouped.push(',');
        }
        grouped.push(digit);
    }
    grouped
}

#[test]
fn grouping_agrees() {
    let mut value: u128 = 0;
    for step in 0..400u128 {
        assert_eq!(value.comma_separated(), grouped_by_index(&value.to_string()));
        let signed = -((value >> 1) as i128);
        let expected = if signed < 0 {
            "-".to_owned() + &grouped_by_index(&signed.unsigned_abs().to_string())
        } else {
            grouped_by_index(&signed.to_string())
        };
        assert_eq!(signed.comma_separated(), expected);
        value = value.wrapping_mul(7).wrapping_add(step * step + 1);
    }
}

#[test]
fn reader_agrees_with_char_indices() {
    let text = "a\u{e9}\u{20ac}\u{1f600}z\u{0}y";
    for start in 0..10usize {
        let mut reader = CodePointsReader::from_index(text, start);
        let mut indices = text.char_indices();
        for _ in 0..start {
            if indices.next().is_none() {
                break;
            }
        }
        loop {
            let ahead = indices.clone();
            assert_eq!(reader.index(), ahead.clone().next().map_or(0, |(i, _)| i));
            assert_eq!(reader.peek(), ahead.clone().next().map(|(_, c)| c));
            assert_eq!(reader.has_remaining(), ahead.clone().next().is_some());
            assert_eq!(reader.reached_end(), ahead.clone().next().is_none());
            for count in 0..4u64 {
                let expected: String = ahead.clone().take(count as usize).map(|(_, c)| c).collect();
                assert_eq!(reader.peek_seq(count), expected);
            }
            let expected = indices.next().map(|(_, c)| c);
            assert_eq!(reader.peek_or_zero(), expected.unwrap_or('\0'));
            assert_eq!(reader.next(), expected);
            if expected.is_none() {
                break;
            }
        }
    }
}
