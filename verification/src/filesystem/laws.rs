//! What holds of the path and of the URL of a file.

use vstd::prelude::*;
use crate::file_paths::laws::{
    are_names, is_name, lemma_body_is_resolved, lemma_join_starts_with_name,
    lemma_normalize_names, lemma_pieces_plain,
};
use crate::file_paths::model::{is_separator, join, normalize, pieces, resolved_body, slash};
use crate::path::resolve_spec;
use crate::uri::{decode_uri_spec, encode_uri_spec};
use crate::uri_laws::{
    lemma_encode_after_slash, lemma_encoded_start, lemma_literal_stretch, lemma_read_escaped,
};
use super::file::{
    app_prefix, app_storage_prefix, file_prefix, forward, leading_separators, path_of, prefix_of,
    scheme_and_path, url_of, with_lead, with_root, FileScheme,
};

verus! {

/// Names that are joined hold no `\\`.
pub proof fn lemma_join_no_backslash(names: Seq<Seq<char>>)
    requires
        are_names(names),
    ensures
        forall|i: int| 0 <= i < join(names, slash()).len() ==> join(names, slash())[i] != '\\',
    decreases names.len(),
{
    if names.len() == 1 {
        assert(is_name(names[0]));
        assert forall|i: int| 0 <= i < names[0].len() implies names[0][i] != '\\' by {
            assert(!is_separator(names[0][i], true));
        }
    } else if names.len() > 1 {
        let init = names.drop_last();
        assert forall|i: int| 0 <= i < init.len() implies is_name(#[trigger] init[i]) by {
            assert(init[i] == names[i]);
        }
        lemma_join_no_backslash(init);
        let last = names.last();
        assert(is_name(names[names.len() - 1]));
        let head = join(init, slash());
        assert forall|i: int| 0 <= i < join(names, slash()).len() implies join(
            names,
            slash(),
        )[i] != '\\' by {
            if i < head.len() {
                assert(join(names, slash())[i] == head[i]);
            } else if i == head.len() {
                assert(join(names, slash())[i] == '/');
            } else {
                assert(join(names, slash())[i] == last[i - head.len() - 1]);
                assert(!is_separator(last[i - head.len() - 1], true));
            }
        }
    }
}

/// The body of a resolved path starts with no separator and holds no `\\`.
pub proof fn lemma_body_is_plain(path: Seq<char>)
    ensures
        resolved_body(path).len() > 0 ==> !is_separator(resolved_body(path)[0], true),
        forall|i: int| 0 <= i < resolved_body(path).len() ==> resolved_body(path)[i] != '\\',
        forward(resolved_body(path)) == resolved_body(path),
{
    lemma_pieces_plain(path, true);
    lemma_normalize_names(pieces(path, true));
    let names = normalize(pieces(path, true));
    lemma_join_no_backslash(names);
    if names.len() >= 1 {
        lemma_join_starts_with_name(names);
        assert(is_name(names[0]));
        assert(!is_separator(names[0][0], true));
    }
    assert(forward(resolved_body(path)) =~= resolved_body(path));
}

/// A text that starts with no separator is led by none.
pub proof fn lemma_no_lead(text: Seq<char>)
    requires
        text.len() > 0 ==> !is_separator(text[0], true),
    ensures
        leading_separators(text) == 0,
{
}

/// The path of a file starts with `/`, and what follows is resolved: its
/// portions are names, with one `/` between them.
pub proof fn law_file_path_is_rooted(url_or_path: Seq<char>) -> (body: Seq<char>)
    ensures
        path_of(url_or_path, false) == slash() + body,
        body == join(normalize(pieces(body, true)), slash()),
        are_names(normalize(pieces(body, true))),
        body.len() > 0 ==> !is_separator(body[0], true),
{
    let (scheme, raw) = scheme_and_path(url_or_path);
    let rooted = with_root(with_lead(raw, seq!['/']));
    assert(rooted.len() > 0 && rooted[0] == '/');
    let body = resolved_body(rooted);
    let nothing = Seq::<char>::empty();
    assert(resolve_spec(rooted, nothing) == slash() + body);
    lemma_body_is_resolved(rooted);
    lemma_body_is_plain(rooted);
    lemma_pieces_plain(body, true);
    lemma_normalize_names(pieces(body, true));
    body
}

/// The URL of a file whose path is `/` and a body that is plain: the
/// scheme, `//`, and the body escaped.
pub proof fn lemma_url_shape(scheme: FileScheme, body: Seq<char>)
    requires
        body.len() > 0 ==> !is_separator(body[0], true),
        forward(body) == body,
    ensures
        url_of(scheme, slash() + body) == prefix_of(scheme) + (seq!['/', '/'] + encode_uri_spec(
            body,
        )),
{
    let path = slash() + body;
    let nothing = Seq::<char>::empty();
    assert(forward(path) =~= path) by {
        assert forall|i: int| 0 <= i < path.len() implies forward(path)[i] == path[i] by {
            if i > 0 {
                assert(path[i] == body[i - 1]);
                assert(forward(body)[i - 1] == body[i - 1]);
            }
        }
    }
    assert(path == seq!['/'] + body);
    lemma_encode_after_slash(body);
    let written = encode_uri_spec(body);
    lemma_encoded_start(body, false);
    assert(written.len() > 0 ==> !is_separator(written[0], true));
    lemma_no_lead(written);
    let led = seq!['/'] + written;
    assert(led.drop_first() == written);
    assert(leading_separators(led) == 1);
    assert(led.skip(1) == written);
    assert(nothing + written == written);
    assert(with_lead(led, nothing) == written);
    assert(prefix_of(scheme) + seq!['/', '/'] + written =~= prefix_of(scheme) + (seq!['/', '/']
        + written));
}

/// A URL that starts with the prefix of a scheme names that scheme, and
/// its path is what follows the prefix, read.
pub proof fn lemma_scheme_of_url(scheme: FileScheme, rest: Seq<char>)
    ensures
        scheme_and_path(prefix_of(scheme) + rest) == (scheme, decode_uri_spec(rest)),
{
    let prefix = prefix_of(scheme);
    let url = prefix + rest;
    assert(prefix.is_prefix_of(url));
    assert(url.skip(prefix.len() as int) =~= rest);
    assert(url[0] == prefix[0]);
    assert(url[3] == prefix[3]);
    match scheme {
        FileScheme::File => {},
        FileScheme::App => {
            assert(!file_prefix().is_prefix_of(url));
        },
        FileScheme::AppStorage => {
            assert(!file_prefix().is_prefix_of(url));
            assert(!app_prefix().is_prefix_of(url)) by {
                assert(app_prefix()[3] != url[3]);
            }
        },
    }
}

/// `//` and an escaped text are read as `//` and the text.
pub proof fn lemma_read_after_slashes(body: Seq<char>)
    ensures
        decode_uri_spec(seq!['/', '/'] + encode_uri_spec(body)) == seq!['/', '/'] + body,
{
    let rest = seq!['/', '/'] + encode_uri_spec(body);
    assert(rest.skip(2) =~= encode_uri_spec(body));
    lemma_literal_stretch(rest, 0, 2);
    assert(vstd::utf8::encode_utf8(Seq::<char>::empty()) == Seq::<u8>::empty());
    lemma_read_escaped(rest, 2, Seq::<char>::empty(), body, false);
    assert(rest.subrange(0, 2) =~= seq!['/', '/']);
    assert(Seq::<char>::empty() + body == body);
}

/// `//` and a body that starts with no separator, led by one `/`, are `/`
/// and the body.
pub proof fn lemma_lead_of_slashes(body: Seq<char>)
    requires
        body.len() > 0 ==> !is_separator(body[0], true),
    ensures
        with_root(with_lead(seq!['/', '/'] + body, seq!['/'])) == slash() + body,
{
    let read = seq!['/', '/'] + body;
    let once = seq!['/'] + body;
    assert(read.drop_first() =~= once);
    assert(once.drop_first() =~= body);
    lemma_no_lead(body);
    assert(leading_separators(once) == 1);
    assert(leading_separators(read) == 2);
    assert(read.skip(2) =~= body);
    assert(with_lead(read, seq!['/']) == once);
    assert(with_root(once) == once);
    assert(slash() + body == once);
}

/// The file that the URL of a file names is that file: it has the same
/// scheme and the same path.
pub proof fn law_file_of_its_url(url_or_path: Seq<char>)
    ensures
        scheme_and_path(
            url_of(scheme_and_path(url_or_path).0, path_of(url_or_path, false)),
        ).0 == scheme_and_path(url_or_path).0,
        path_of(url_of(scheme_and_path(url_or_path).0, path_of(url_or_path, false)), false)
            == path_of(url_or_path, false),
{
    let scheme = scheme_and_path(url_or_path).0;
    let body = law_file_path_is_rooted(url_or_path);
    let path = path_of(url_or_path, false);
    let nothing = Seq::<char>::empty();
    lemma_body_is_plain(body);
    assert(resolved_body(body) == body);
    lemma_body_is_resolved(body);
    lemma_url_shape(scheme, body);
    let rest = seq!['/', '/'] + encode_uri_spec(body);
    let url = url_of(scheme, path);
    lemma_scheme_of_url(scheme, rest);
    lemma_read_after_slashes(body);
    lemma_lead_of_slashes(body);
    let rooted = slash() + body;
    assert(rooted.len() > 0 && rooted[0] == '/');
    assert(resolve_spec(rooted, nothing) == slash() + resolved_body(rooted));
}

} // verus!
