//! Request targets and upstream addresses as plain text parts.

use vstd::prelude::*;
use vstd::utf8;

verus! {

/// The longest text, in bytes, that the `http` crate takes as path and query of a URI.
pub const MAX_PATH_AND_QUERY_BYTES: usize = 65_534;

/// A URI taken apart. Parts that the URI does not have are `None`; the path may be empty.
#[derive(Debug, PartialEq, Eq)]
pub struct Uri {
    pub scheme: Option<String>,
    pub authority: Option<String>,
    pub path: String,
    pub query: Option<String>,
}

/// The text of each part of a [`Uri`].
#[verifier::ext_equal]
pub struct UriView {
    pub scheme: Option<Seq<char>>,
    pub authority: Option<Seq<char>>,
    pub path: Seq<char>,
    pub query: Option<Seq<char>>,
}

/// The text behind an optional string.
pub open spec fn text_of_option(s: Option<String>) -> Option<Seq<char>> {
    match s {
        Some(t) => Some(t@),
        None => None,
    }
}

impl View for Uri {
    type V = UriView;

    open spec fn view(&self) -> UriView {
        UriView {
            scheme: text_of_option(self.scheme),
            authority: text_of_option(self.authority),
            path: self.path@,
            query: text_of_option(self.query),
        }
    }
}

/// A character that may stand in the path of a URI as it is.
pub open spec fn path_char(c: char) -> bool {
    let b = c as u32;
    ||| b == 0x21
    ||| b == 0x22
    ||| 0x24 <= b <= 0x3B
    ||| b == 0x3D
    ||| 0x40 <= b <= 0x5F
    ||| 0x61 <= b <= 0x7E
    ||| b >= 0x80
}

/// A character that may stand in the query of a URI as it is.
pub open spec fn query_char(c: char) -> bool {
    let b = c as u32;
    ||| b == 0x21
    ||| 0x24 <= b <= 0x3B
    ||| b == 0x3D
    ||| 0x3F <= b <= 0x7E
    ||| b >= 0x80
}

/// A printable ASCII character other than the space.
pub open spec fn graphic_char(c: char) -> bool {
    0x21 <= c as u32 <= 0x7E
}

/// Every character of `s` may stand in a path.
pub open spec fn path_text(s: Seq<char>) -> bool {
    forall|i: int| 0 <= i < s.len() ==> path_char(#[trigger] s[i])
}

/// Every character of `s` may stand in a query.
pub open spec fn query_text(s: Seq<char>) -> bool {
    forall|i: int| 0 <= i < s.len() ==> query_char(#[trigger] s[i])
}

/// Every character of `s` is printable ASCII and no space.
pub open spec fn graphic_text(s: Seq<char>) -> bool {
    forall|i: int| 0 <= i < s.len() ==> graphic_char(#[trigger] s[i])
}

/// The part of `s` before the first `c`, or all of `s` where there is none.
pub open spec fn before_first(s: Seq<char>, c: char) -> Seq<char>
    decreases s.len(),
{
    if s.len() == 0 || s.first() == c {
        Seq::empty()
    } else {
        seq![s.first()] + before_first(s.drop_first(), c)
    }
}

/// The part of `s` behind the first `c`, where there is one.
pub open spec fn after_first(s: Seq<char>, c: char) -> Option<Seq<char>>
    decreases s.len(),
{
    if s.len() == 0 {
        None
    } else if s.first() == c {
        Some(s.drop_first())
    } else {
        after_first(s.drop_first(), c)
    }
}

/// The path that a path-and-query text names: what stands before the query, the root where
/// that is empty. A fragment does not count.
pub open spec fn named_path(text: Seq<char>) -> Seq<char> {
    let path = before_first(before_first(text, '#'), '?');
    if path.len() == 0 {
        seq!['/']
    } else {
        path
    }
}

/// The query that a path-and-query text names, without a fragment.
pub open spec fn named_query(text: Seq<char>) -> Option<Seq<char>> {
    after_first(before_first(text, '#'), '?')
}

/// A path and its query as one text.
pub open spec fn joined_path_and_query(path: Seq<char>, query: Option<Seq<char>>) -> Seq<char> {
    match query {
        Some(q) => path.push('?') + q,
        None => path,
    }
}

/// A path and a query from which a URI can be built: an absolute path, no character that would
/// have to be encoded, and not too long.
pub open spec fn fits_in_uri(path: Seq<char>, query: Option<Seq<char>>) -> bool {
    &&& path.len() > 0
    &&& path[0] == '/'
    &&& path_text(path)
    &&& query matches Some(q) ==> query_text(q)
    &&& utf8::encode_utf8(joined_path_and_query(path, query)).len() <= MAX_PATH_AND_QUERY_BYTES
}

/// What `http::Uri`'s parser makes of a text: its parts, or the message of the error.
pub uninterp spec fn parsed_uri(text: Seq<char>) -> Result<UriView, Seq<char>>;

/// The message with which `http::uri::Builder` refuses a scheme, an authority and a path with
/// its query; `None` where it builds a URI from them.
pub uninterp spec fn build_refusal(
    scheme: Seq<char>,
    authority: Seq<char>,
    path_and_query: Seq<char>,
) -> Option<Seq<char>>;

/// A scheme and an authority that `http::uri::Builder` takes: the root path can be built on
/// them.
pub open spec fn accepted_origin(scheme: Seq<char>, authority: Seq<char>) -> bool {
    build_refusal(scheme, authority, seq!['/']) is None
}

/// The parser of `http::Uri` (`str::parse`), with `scheme_str`, `authority`, `path` and `query`
/// read off the result.
///
/// The result is a function of the text. Where there is one, its path holds path characters
/// only and is absolute when there is a scheme, its authority is printable ASCII, and scheme and
/// authority are such as the builder of `http::Uri` takes back.
#[verifier::external_body]
pub(crate) fn parse_uri(text: &str) -> (r: Result<Uri, String>)
    ensures
        match parsed_uri(text@) {
            Ok(parts) => r matches Ok(uri) && uri@ == parts,
            Err(message) => r matches Err(e) && e@ == message,
        },
        r matches Ok(uri) ==> {
            &&& path_text(uri@.path)
            &&& uri@.scheme is Some ==> uri@.path.len() > 0 && uri@.path[0] == '/'
            &&& uri@.authority matches Some(a) ==> graphic_text(a)
            &&& uri@.scheme is Some && uri@.authority is Some ==> accepted_origin(
                uri@.scheme->0,
                uri@.authority->0,
            )
        },
{
    match text.parse::<axum::http::Uri>() {
        Ok(uri) => Ok(
            Uri {
                scheme: uri.scheme_str().map(|s| s.to_string()),
                authority: uri.authority().map(|a| a.to_string()),
                path: uri.path().to_string(),
                query: uri.query().map(|q| q.to_string()),
            },
        ),
        Err(err) => Err(err.to_string()),
    }
}

/// `http::uri::Builder` with a scheme, an authority and a path with its query, built.
///
/// Where it builds, scheme and authority are the given ones, and path and query are those that
/// the text names. It builds on an origin that it takes whenever path and query fit.
#[verifier::external_body]
pub(crate) fn build_uri(scheme: &str, authority: &str, path_and_query: String) -> (r: Result<
    Uri,
    String,
>)
    ensures
        match build_refusal(scheme@, authority@, path_and_query@) {
            None => r is Ok,
            Some(message) => r matches Err(e) && e@ == message,
        },
        r matches Ok(uri) ==> uri@ == (UriView {
            scheme: Some(scheme@),
            authority: Some(authority@),
            path: named_path(path_and_query@),
            query: named_query(path_and_query@),
        }),
        accepted_origin(scheme@, authority@) && fits_in_uri(
            named_path(path_and_query@),
            named_query(path_and_query@),
        ) && path_and_query@ == joined_path_and_query(
            named_path(path_and_query@),
            named_query(path_and_query@),
        ) ==> r is Ok,
{
    let built = axum::http::Uri::builder().scheme(scheme).authority(authority).path_and_query(
        path_and_query,
    ).build();
    match built {
        Ok(uri) => Ok(
            Uri {
                scheme: uri.scheme_str().map(|s| s.to_string()),
                authority: uri.authority().map(|a| a.to_string()),
                path: uri.path().to_string(),
                query: uri.query().map(|q| q.to_string()),
            },
        ),
        Err(err) => Err(err.to_string()),
    }
}

/// A path without fragment or query mark is what it names, and a query behind it likewise: the
/// parts of a fitting path and query come back from their joined text.
pub proof fn joined_parts_come_back(path: Seq<char>, query: Option<Seq<char>>)
    requires
        path.len() > 0,
        path_text(path),
        query matches Some(q) ==> query_text(q),
    ensures
        named_path(joined_path_and_query(path, query)) == path,
        named_query(joined_path_and_query(path, query)) == query,
{
    let joined = joined_path_and_query(path, query);
    assert(!joined.contains('#')) by {
        assert forall|i: int| 0 <= i < joined.len() implies joined[i] != '#' by {
            if i < path.len() {
                assert(joined[i] == path[i]);
            } else if i > path.len() {
                assert(joined[i] == query->0[i - path.len() - 1]);
            }
        }
    }
    lemma_before_absent(joined, '#');
    assert(!path.contains('?'));
    match query {
        Some(q) => {
            assert(joined =~= path + (seq!['?'] + q));
            lemma_split_behind(path, seq!['?'] + q, '?');
            assert((seq!['?'] + q).drop_first() =~= q);
            assert(path + Seq::<char>::empty() =~= path);
        },
        None => {
            lemma_before_absent(joined, '?');
        },
    }
}

proof fn lemma_before_absent(s: Seq<char>, c: char)
    requires
        !s.contains(c),
    ensures
        before_first(s, c) == s,
        after_first(s, c) is None,
    decreases s.len(),
{
    if s.len() > 0 {
        assert(s.contains(s[0]));
        assert forall|i: int| 0 <= i < s.drop_first().len() implies s.drop_first()[i] != c by {
            assert(s.contains(s[i + 1]));
        }
        lemma_before_absent(s.drop_first(), c);
        assert(seq![s.first()] + s.drop_first() =~= s);
    } else {
        assert(s =~= Seq::empty());
    }
}

proof fn lemma_split_behind(head: Seq<char>, tail: Seq<char>, c: char)
    requires
        !head.contains(c),
    ensures
        before_first(head + tail, c) == head + before_first(tail, c),
        after_first(head + tail, c) == after_first(tail, c),
    decreases head.len(),
{
    if head.len() > 0 {
        assert(head.contains(head[0]));
        assert forall|i: int| 0 <= i < head.drop_first().len() implies head.drop_first()[i]
            != c by {
            assert(head.contains(head[i + 1]));
        }
        lemma_split_behind(head.drop_first(), tail, c);
        assert((head + tail).drop_first() =~= head.drop_first() + tail);
        assert(seq![head.first()] + (head.drop_first() + before_first(tail, c)) =~= head
            + before_first(tail, c));
    } else {
        assert(head + tail =~= tail);
        assert(head + before_first(tail, c) =~= before_first(tail, c));
    }
}

/// A text that holds a character is what stands before its first occurrence, the character, and
/// what stands behind it.
pub proof fn text_is_split_at_the_first(head: Seq<char>, c: char, tail: Seq<char>)
    requires
        !head.contains(c),
    ensures
        before_first(head + seq![c] + tail, c) == head,
        after_first(head + seq![c] + tail, c) == Some(tail),
        before_first(head, c) == head,
        after_first(head, c) is None,
{
    let rest = seq![c] + tail;
    lemma_before_absent(head, c);
    lemma_split_behind(head, rest, c);
    assert(head + seq![c] + tail =~= head + rest);
    assert(rest.drop_first() =~= tail);
    assert(head + Seq::<char>::empty() =~= head);
}

/// A query stands behind its path and a question mark; a path without query stands alone.
pub proof fn query_stands_behind_the_path(path: Seq<char>, query: Seq<char>)
    ensures
        joined_path_and_query(path, None) == path,
        joined_path_and_query(path, Some(query)) == path + "?"@ + query,
{
    reveal_strlit("?");
    assert(path.push('?') + query =~= path + "?"@ + query);
}

/// A path-and-query text names what stands before the question mark and what stands behind it,
/// up to a fragment; an empty path names the root.
pub proof fn parts_are_named_as_they_stand(
    path: Seq<char>,
    query: Seq<char>,
    fragment: Seq<char>,
)
    requires
        !path.contains('?'),
        !path.contains('#'),
        !query.contains('#'),
    ensures
        path.len() > 0 ==> named_path(path) == path,
        path.len() == 0 ==> named_path(path) == "/"@,
        named_query(path) is None,
        named_path(path + "?"@ + query) == named_path(path),
        named_query(path + "?"@ + query) == Some(query),
        named_path(path + "?"@ + query + "#"@ + fragment) == named_path(path),
        named_query(path + "?"@ + query + "#"@ + fragment) == Some(query),
        named_path(path + "#"@ + fragment) == named_path(path),
        named_query(path + "#"@ + fragment) is None,
{
    reveal_strlit("?");
    reveal_strlit("#");
    reveal_strlit("/");
    assert("?"@ =~= seq!['?']);
    assert("#"@ =~= seq!['#']);
    assert("/"@ =~= seq!['/']);
    let both = path + "?"@ + query;
    assert forall|i: int| 0 <= i < both.len() implies both[i] != '#' by {
        if i < path.len() {
            assert(path.contains(path[i]));
        } else if i > path.len() {
            assert(both[i] == query[i - path.len() - 1]);
            assert(query.contains(query[i - path.len() - 1]));
        }
    }
    text_is_split_at_the_first(path, '#', fragment);
    text_is_split_at_the_first(both, '#', fragment);
    text_is_split_at_the_first(path, '?', query);
}

/// The view of a URI gives each of its parts in full, and a part that is not there as none.
pub proof fn uri_view_gives_every_part(uri: Uri)
    ensures
        uri.scheme is Some ==> uri@.scheme == Some(uri.scheme->Some_0@),
        uri.scheme is None ==> uri@.scheme is None,
        uri.authority is Some ==> uri@.authority == Some(uri.authority->Some_0@),
        uri.authority is None ==> uri@.authority is None,
        uri@.path == uri.path@,
        uri.query is Some ==> uri@.query == Some(uri.query->Some_0@),
        uri.query is None ==> uri@.query is None,
{
}

/// The text of an optional string is that of the string, in full, where there is one.
pub proof fn text_of_some_is_its_text(s: String)
    ensures
        text_of_option(Some(s)) == Some(s@),
        text_of_option(None) is None,
{
}

} // verus!
