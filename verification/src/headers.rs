//! Request and response headers, and what forwarding makes of them.

use axum::http::{HeaderMap, HeaderValue};
use vstd::prelude::*;
use vstd::utf8;

use crate::route::PreparedUpstream;
use crate::text;
use crate::uri;
use crate::uri::{Uri, UriView};

verus! {

#[verifier::external_type_specification]
#[verifier::external_body]
#[verifier::reject_recursive_types(T)]
pub struct ExHeaderMap<T>(axum::http::HeaderMap<T>);

#[verifier::external_type_specification]
#[verifier::external_body]
pub struct ExHeaderValue(axum::http::HeaderValue);

/// What a header map holds: for each name, in lower case, its values in their order, each as
/// bytes.
pub uninterp spec fn header_contents(headers: HeaderMap<HeaderValue>) -> Map<
    Seq<char>,
    Seq<Seq<u8>>,
>;

/// The bytes of a header value.
pub uninterp spec fn value_bytes(value: HeaderValue) -> Seq<u8>;

/// The number of header names up to which a header map takes another one, however the names
/// hash.
pub const MAX_HEADER_NAMES: usize = 6_553;

/// How many header names forwarding can add to a request.
pub const FORWARDED_NAMES: usize = 5;

/// The bytes of an optional header value.
pub open spec fn bytes_of_option(value: Option<HeaderValue>) -> Option<Seq<u8>> {
    match value {
        Some(v) => Some(value_bytes(v)),
        None => None,
    }
}

/// A header name as this module writes it: lower-case letters and dashes.
pub open spec fn header_name(name: Seq<char>) -> bool {
    &&& 0 < name.len() <= 64
    &&& forall|i: int|
        0 <= i < name.len() ==> {
            ||| 'a' <= #[trigger] name[i] <= 'z'
            ||| name[i] == '-'
        }
}

/// A byte of visible ASCII text, the space and the tab included.
pub open spec fn visible_byte(b: u8) -> bool {
    32 <= b < 127 || b == 9
}

/// A byte that may stand in a header value.
pub open spec fn value_byte(b: u8) -> bool {
    (32 <= b && b != 127) || b == 9
}

/// Every byte is visible ASCII.
pub open spec fn visible(bytes: Seq<u8>) -> bool {
    forall|i: int| 0 <= i < bytes.len() ==> visible_byte(#[trigger] bytes[i])
}

/// Every byte may stand in a header value.
pub open spec fn admissible(bytes: Seq<u8>) -> bool {
    forall|i: int| 0 <= i < bytes.len() ==> value_byte(#[trigger] bytes[i])
}

/// The text of ASCII bytes.
pub open spec fn ascii_text(bytes: Seq<u8>) -> Seq<char> {
    Seq::new(bytes.len(), |i: int| bytes[i] as char)
}

/// The header map holds `count` distinct names.
pub open spec fn has_names(contents: Map<Seq<char>, Seq<Seq<u8>>>, count: nat) -> bool {
    contents.dom().finite() && contents.dom().len() == count
}

/// The header map takes `more` further names.
pub open spec fn has_room(contents: Map<Seq<char>, Seq<Seq<u8>>>, more: nat) -> bool {
    &&& contents.dom().finite()
    &&& contents.dom().len() + more <= MAX_HEADER_NAMES
}

/// The first value of a name.
pub open spec fn first_value(contents: Map<Seq<char>, Seq<Seq<u8>>>, name: Seq<char>) -> Option<
    Seq<u8>,
> {
    if contents.contains_key(name) {
        Some(contents[name][0])
    } else {
        None
    }
}

/// The contents with one more value for a name.
pub open spec fn appended(
    contents: Map<Seq<char>, Seq<Seq<u8>>>,
    name: Seq<char>,
    value: Seq<u8>,
) -> Map<Seq<char>, Seq<Seq<u8>>> {
    let before = if contents.contains_key(name) {
        contents[name]
    } else {
        Seq::empty()
    };
    contents.insert(name, before.push(value))
}

/// `HeaderMap::keys_len`: the number of distinct names.
#[verifier::external_body]
fn name_count(headers: &HeaderMap<HeaderValue>) -> (r: usize)
    ensures
        has_names(header_contents(*headers), r as nat),
{
    headers.keys_len()
}

/// `HeaderMap::get`, with the value cloned: the first value of the name.
#[verifier::external_body]
fn get_header(headers: &HeaderMap<HeaderValue>, name: &str) -> (r: Option<HeaderValue>)
    requires
        header_name(name@),
    ensures
        bytes_of_option(r) == first_value(header_contents(*headers), name@),
{
    headers.get(name).cloned()
}

/// `HeaderMap::insert`: the value takes the place of all that the name had. It needs room for
/// the name, and panics on a map that is full.
#[verifier::external_body]
fn set_header(headers: &mut HeaderMap<HeaderValue>, name: &'static str, value: HeaderValue)
    requires
        header_name(name@),
        has_room(header_contents(*old(headers)), 0),
    ensures
        header_contents(*final(headers)) == header_contents(*old(headers)).insert(
            name@,
            seq![value_bytes(value)],
        ),
{
    headers.insert(name, value);
}

/// `HeaderMap::append`: the value comes behind those that the name has. It needs room for the
/// name, and panics on a map that is full.
#[verifier::external_body]
fn add_header(headers: &mut HeaderMap<HeaderValue>, name: &'static str, value: HeaderValue)
    requires
        header_name(name@),
        has_room(header_contents(*old(headers)), 0),
    ensures
        header_contents(*final(headers)) == appended(
            header_contents(*old(headers)),
            name@,
            value_bytes(value),
        ),
{
    headers.append(name, value);
}

/// `HeaderValue::clone`: a value of the same bytes.
#[verifier::external_body]
pub(crate) fn copy_value(value: &HeaderValue) -> (r: HeaderValue)
    ensures
        value_bytes(r) == value_bytes(*value),
{
    value.clone()
}

/// `HeaderValue::to_str`, as an owned text: there is one where every byte is visible ASCII.
#[verifier::external_body]
fn value_text(value: &HeaderValue) -> (r: Option<String>)
    ensures
        match r {
            Some(s) => visible(value_bytes(*value)) && s@ == ascii_text(value_bytes(*value)),
            None => !visible(value_bytes(*value)),
        },
{
    value.to_str().ok().map(|s| s.to_string())
}

/// `HeaderValue::from_str`: the value holds the bytes of the text, and there is one where every
/// byte may stand in it.
#[verifier::external_body]
fn text_value(s: &str) -> (r: Option<HeaderValue>)
    ensures
        match r {
            Some(value) => admissible(utf8::encode_utf8(s@)) && value_bytes(value)
                == utf8::encode_utf8(s@),
            None => !admissible(utf8::encode_utf8(s@)),
        },
{
    HeaderValue::from_str(s).ok()
}

/// `HeaderValue::from_static`: the value holds the bytes of the text. It panics on a text that is
/// not visible ASCII.
#[verifier::external_body]
fn static_value(s: &'static str) -> (r: HeaderValue)
    requires
        visible(utf8::encode_utf8(s@)),
    ensures
        value_bytes(r) == utf8::encode_utf8(s@),
{
    HeaderValue::from_static(s)
}

/// The bytes of a header value for a text: those of the text where they may stand in a value,
/// else those of the fallback.
pub open spec fn value_or(s: Seq<char>, fallback: Seq<char>) -> Seq<u8> {
    if admissible(utf8::encode_utf8(s)) {
        utf8::encode_utf8(s)
    } else {
        utf8::encode_utf8(fallback)
    }
}

/// The text of a header value where it is visible ASCII, else the fallback.
pub open spec fn text_or(bytes: Seq<u8>, fallback: Seq<char>) -> Seq<char> {
    if visible(bytes) {
        ascii_text(bytes)
    } else {
        fallback
    }
}

/// A text of spaces and tabs only.
pub open spec fn blank(s: Seq<char>) -> bool {
    forall|i: int| 0 <= i < s.len() ==> #[trigger] s[i] == ' ' || s[i] == '\t'
}

/// The chain of addresses that a request came through, the peer last. What the header said
/// before counts only where it is a text and not blank.
pub open spec fn address_chain(contents: Map<Seq<char>, Seq<Seq<u8>>>, peer_ip: Seq<char>) -> Seq<
    char,
> {
    match first_value(contents, "x-forwarded-for"@) {
        Some(bytes) => if visible(bytes) && !blank(ascii_text(bytes)) {
            ascii_text(bytes) + ", "@ + peer_ip
        } else {
            peer_ip
        },
        None => peer_ip,
    }
}

/// The protocol that a forwarded request declares.
pub open spec fn declared_proto(contents: Map<Seq<char>, Seq<Seq<u8>>>, inferred: Seq<char>) -> Seq<
    char,
> {
    match first_value(contents, "x-forwarded-proto"@) {
        Some(bytes) => text_or(bytes, inferred),
        None => text_or(value_or(inferred, "http"@), "http"@),
    }
}

/// The protocol by which a request reached the proxy: what an earlier proxy says of it, else the
/// scheme of its URI, else plain HTTP.
pub open spec fn request_proto(contents: Map<Seq<char>, Seq<Seq<u8>>>, target: UriView) -> Seq<
    char,
> {
    let fallback = match target.scheme {
        Some(scheme) => scheme,
        None => "http"@,
    };
    match first_value(contents, "x-forwarded-proto"@) {
        Some(bytes) => text_or(bytes, fallback),
        None => fallback,
    }
}

/// The value of the standard `forwarded` header.
pub open spec fn forwarded_element(peer_ip: Seq<char>, proto: Seq<char>) -> Seq<char> {
    "for=\""@ + peer_ip + "\";proto="@ + proto
}

/// What the headers of a request hold once it is addressed to an upstream.
pub open spec fn rewritten(
    contents: Map<Seq<char>, Seq<Seq<u8>>>,
    authority: Seq<char>,
    peer_ip: Seq<char>,
    original_host: Option<Seq<u8>>,
    inferred: Seq<char>,
) -> Map<Seq<char>, Seq<Seq<u8>>> {
    let chained = contents.insert(
        "x-forwarded-for"@,
        seq![value_or(address_chain(contents, peer_ip), "unknown"@)],
    );
    let declared = if contents.contains_key("x-forwarded-proto"@) {
        chained
    } else {
        chained.insert("x-forwarded-proto"@, seq![value_or(inferred, "http"@)])
    };
    let remembered = match original_host {
        Some(host) => declared.insert("x-forwarded-host"@, seq![host]),
        None => declared,
    };
    remembered.insert("host"@, seq![utf8::encode_utf8(authority)]).insert(
        "forwarded"@,
        seq![
            value_or(
                forwarded_element(peer_ip, declared_proto(contents, inferred)),
                "for=\"unknown\""@,
            ),
        ],
    )
}

/// The names that forwarding writes are header names, and no two of them are the same.
proof fn lemma_names()
    ensures
        header_name("x-forwarded-for"@),
        header_name("x-forwarded-proto"@),
        header_name("x-forwarded-host"@),
        header_name("host"@),
        header_name("forwarded"@),
        "x-forwarded-for"@ != "x-forwarded-proto"@,
        "x-forwarded-for"@ != "x-forwarded-host"@,
        "x-forwarded-for"@ != "host"@,
        "x-forwarded-for"@ != "forwarded"@,
        "x-forwarded-proto"@ != "x-forwarded-host"@,
        "x-forwarded-proto"@ != "host"@,
        "x-forwarded-proto"@ != "forwarded"@,
        "x-forwarded-host"@ != "host"@,
        "x-forwarded-host"@ != "forwarded"@,
        "host"@ != "forwarded"@,
{
    reveal_strlit("x-forwarded-for");
    reveal_strlit("x-forwarded-proto");
    reveal_strlit("x-forwarded-host");
    reveal_strlit("host");
    reveal_strlit("forwarded");
    assert("x-forwarded-for"@.len() == 15);
    assert("host"@.len() == 4);
    assert("forwarded"@.len() == 9);
    assert("x-forwarded-for"@[12] == 'f');
    assert("x-forwarded-proto"@[12] == 'p');
    assert("x-forwarded-host"@[12] == 'h');
}

proof fn lemma_visible_ascii(s: Seq<char>)
    requires
        forall|i: int| 0 <= i < s.len() ==> ' ' <= #[trigger] s[i] <= '~' || s[i] == '\t',
    ensures
        visible(utf8::encode_utf8(s)),
        admissible(utf8::encode_utf8(s)),
        ascii_text(utf8::encode_utf8(s)) == s,
{
    utf8::is_ascii_chars_encode_utf8(s);
    let bytes = utf8::encode_utf8(s);
    assert forall|i: int| 0 <= i < bytes.len() implies visible_byte(#[trigger] bytes[i]) && bytes[i]
        as char == s[i] by {
        assert(bytes[i] == s[i] as u8);
    }
    assert(ascii_text(bytes) =~= s);
}

proof fn lemma_graphic_is_visible(c: char)
    requires
        uri::graphic_char(c),
    ensures
        ' ' <= c <= '~',
{
}

proof fn lemma_fallbacks()
    ensures
        visible(utf8::encode_utf8("unknown"@)),
        visible(utf8::encode_utf8("http"@)),
        visible(utf8::encode_utf8("for=\"unknown\""@)),
        visible(utf8::encode_utf8("1.1 roxy"@)),
{
    reveal_strlit("unknown");
    reveal_strlit("http");
    reveal_strlit("for=\"unknown\"");
    reveal_strlit("1.1 roxy");
    lemma_visible_ascii("unknown"@);
    lemma_visible_ascii("http"@);
    lemma_visible_ascii("for=\"unknown\""@);
    lemma_visible_ascii("1.1 roxy"@);
}

fn value_or_static(s: &str, fallback: &'static str) -> (r: HeaderValue)
    requires
        visible(utf8::encode_utf8(fallback@)),
    ensures
        value_bytes(r) == value_or(s@, fallback@),
{
    match text_value(s) {
        Some(value) => value,
        None => static_value(fallback),
    }
}

fn is_blank(s: &str) -> (r: bool)
    ensures
        r == blank(s@),
{
    let v = text::chars_of(s);
    let mut i: usize = 0;
    while i < v.len()
        invariant
            v@ == s@,
            i <= v@.len(),
            forall|j: int| 0 <= j < i ==> #[trigger] s@[j] == ' ' || s@[j] == '\t',
        decreases v@.len() - i,
    {
        if v[i] != ' ' && v[i] != '\t' {
            return false;
        }
        i += 1;
    }
    true
}

/// The `host` header of a request.
pub fn host_of(headers: &HeaderMap<HeaderValue>) -> (r: Option<HeaderValue>)
    ensures
        bytes_of_option(r) == first_value(header_contents(*headers), "host"@),
{
    proof {
        lemma_names();
    }
    get_header(headers, "host")
}

/// Whether the headers of a request take the names that forwarding adds.
pub fn can_take_forwarding(headers: &HeaderMap<HeaderValue>) -> (r: bool)
    ensures
        r == has_room(header_contents(*headers), FORWARDED_NAMES as nat),
{
    name_count(headers) <= MAX_HEADER_NAMES - FORWARDED_NAMES
}

/// The protocol by which a request reached the proxy.
pub fn infer_request_proto(headers: &HeaderMap<HeaderValue>, uri: &Uri) -> (r: String)
    ensures
        r@ == request_proto(header_contents(*headers), uri@),
{
    proof {
        lemma_names();
    }
    if let Some(value) = get_header(headers, "x-forwarded-proto") {
        if let Some(proto) = value_text(&value) {
            return proto;
        }
    }
    match &uri.scheme {
        Some(scheme) => scheme.clone(),
        None => String::from_str("http"),
    }
}

/// A response whose body is encoded: it names an encoding, and not the one that changes nothing.
pub open spec fn encoded(contents: Map<Seq<char>, Seq<Seq<u8>>>) -> bool {
    match first_value(contents, "content-encoding"@) {
        Some(bytes) => bytes != utf8::encode_utf8("identity"@),
        None => false,
    }
}

/// A response whose body is encoded with gzip.
pub open spec fn gzip_encoded(contents: Map<Seq<char>, Seq<Seq<u8>>>) -> bool {
    match first_value(contents, "content-encoding"@) {
        Some(bytes) => bytes == utf8::encode_utf8("gzip"@) || bytes == utf8::encode_utf8(
            "x-gzip"@,
        ),
        None => false,
    }
}

proof fn lemma_encodings()
    ensures
        header_name("content-encoding"@),
        visible(utf8::encode_utf8("identity"@)),
        visible(utf8::encode_utf8("gzip"@)),
        visible(utf8::encode_utf8("x-gzip"@)),
        ascii_text(utf8::encode_utf8("identity"@)) == "identity"@,
        ascii_text(utf8::encode_utf8("gzip"@)) == "gzip"@,
        ascii_text(utf8::encode_utf8("x-gzip"@)) == "x-gzip"@,
{
    reveal_strlit("content-encoding");
    reveal_strlit("identity");
    reveal_strlit("gzip");
    reveal_strlit("x-gzip");
    lemma_visible_ascii("identity"@);
    lemma_visible_ascii("gzip"@);
    lemma_visible_ascii("x-gzip"@);
}

/// Visible bytes are those of their text.
proof fn lemma_visible_bytes(bytes: Seq<u8>)
    requires
        visible(bytes),
    ensures
        utf8::encode_utf8(ascii_text(bytes)) == bytes,
{
    let s = ascii_text(bytes);
    assert forall|i: int| 0 <= i < s.len() implies ' ' <= #[trigger] s[i] <= '~' || s[i] == '\t' by {
        assert(visible_byte(bytes[i]));
    }
    utf8::is_ascii_chars_encode_utf8(s);
    assert forall|i: int| 0 <= i < bytes.len() implies utf8::encode_utf8(s)[i] == bytes[i] by {
        assert(visible_byte(bytes[i]));
        assert(s[i] as u8 == bytes[i]);
    }
    assert(utf8::encode_utf8(s) =~= bytes);
}

/// Whether the body of a response is encoded.
pub fn is_encoded(headers: &HeaderMap<HeaderValue>) -> (r: bool)
    ensures
        r == encoded(header_contents(*headers)),
{
    proof {
        lemma_encodings();
    }
    match get_header(headers, "content-encoding") {
        Some(value) => match value_text(&value) {
            Some(encoding) => {
                proof {
                    lemma_visible_bytes(value_bytes(value));
                }
                !text::same_text(encoding.as_str(), "identity")
            },
            None => true,
        },
        None => false,
    }
}

/// Whether the body of a response is encoded with gzip.
pub fn is_gzip(headers: &HeaderMap<HeaderValue>) -> (r: bool)
    ensures
        r == gzip_encoded(header_contents(*headers)),
{
    proof {
        lemma_encodings();
    }
    match get_header(headers, "content-encoding") {
        Some(value) => match value_text(&value) {
            Some(encoding) => {
                proof {
                    lemma_visible_bytes(value_bytes(value));
                }
                text::same_text(encoding.as_str(), "gzip") || text::same_text(
                    encoding.as_str(),
                    "x-gzip",
                )
            },
            None => false,
        },
        None => false,
    }
}

/// Addresses a request to its upstream, and notes in its headers where it came from.
pub fn rewrite_request_headers(
    headers: &mut HeaderMap<HeaderValue>,
    prepared: &PreparedUpstream,
    peer_ip: &str,
    original_host: Option<HeaderValue>,
    inferred_proto: &str,
)
    requires
        uri::graphic_text(prepared.authority@),
        has_room(header_contents(*old(headers)), FORWARDED_NAMES as nat),
    ensures
        header_contents(*final(headers)) == rewritten(
            header_contents(*old(headers)),
            prepared.authority@,
            peer_ip@,
            bytes_of_option(original_host),
            inferred_proto@,
        ),
{
    let ghost before = header_contents(*headers);
    proof {
        lemma_names();
        lemma_fallbacks();
        assert forall|i: int| 0 <= i < prepared.authority@.len() implies ' '
            <= #[trigger] prepared.authority@[i] <= '~' by {
            lemma_graphic_is_visible(prepared.authority@[i]);
        }
        lemma_visible_ascii(prepared.authority@);
    }
    let mut chain = String::new();
    if let Some(existing) = get_header(headers, "x-forwarded-for") {
        if let Some(value) = value_text(&existing) {
            if !is_blank(value.as_str()) {
                chain = value;
                chain.append(", ");
            }
        }
    }
    chain.append(peer_ip);
    assert(chain@ =~= address_chain(before, peer_ip@));
    set_header(headers, "x-forwarded-for", value_or_static(chain.as_str(), "unknown"));
    let proto = match get_header(headers, "x-forwarded-proto") {
        Some(value) => match value_text(&value) {
            Some(proto) => proto,
            None => inferred_proto.to_owned(),
        },
        None => {
            let value = value_or_static(inferred_proto, "http");
            let proto = match value_text(&value) {
                Some(proto) => proto,
                None => String::from_str("http"),
            };
            set_header(headers, "x-forwarded-proto", value);
            proto
        },
    };
    assert(proto@ == declared_proto(before, inferred_proto@));
    if let Some(host) = original_host {
        set_header(headers, "x-forwarded-host", host);
    }
    match text_value(prepared.authority.as_str()) {
        Some(host) => set_header(headers, "host", host),
        None => {},
    }
    let mut element = String::from_str("for=\"");
    element.append(peer_ip);
    element.append("\";proto=");
    element.append(proto.as_str());
    set_header(headers, "forwarded", value_or_static(element.as_str(), "for=\"unknown\""));
}

/// Notes in the headers of a response that it came through this proxy.
pub fn mark_response(headers: &mut HeaderMap<HeaderValue>)
    requires
        has_room(header_contents(*old(headers)), 0),
    ensures
        header_contents(*final(headers)) == appended(
            header_contents(*old(headers)),
            "via"@,
            utf8::encode_utf8("1.1 roxy"@),
        ),
{
    proof {
        reveal_strlit("via");
        lemma_fallbacks();
    }
    add_header(headers, "via", static_value("1.1 roxy"));
}

/// Whether the headers of a response take the note of this proxy.
pub fn can_take_mark(headers: &HeaderMap<HeaderValue>) -> (r: bool)
    ensures
        r == has_room(header_contents(*headers), 0),
{
    name_count(headers) <= MAX_HEADER_NAMES
}

/// The names that forwarding may write.
pub open spec fn forwarding_name(name: Seq<char>) -> bool {
    ||| name == "x-forwarded-for"@
    ||| name == "x-forwarded-proto"@
    ||| name == "x-forwarded-host"@
    ||| name == "host"@
    ||| name == "forwarded"@
}

/// Forwarding leaves every other header of the request as it is.
pub proof fn forwarding_keeps_other_headers(
    contents: Map<Seq<char>, Seq<Seq<u8>>>,
    authority: Seq<char>,
    peer_ip: Seq<char>,
    original_host: Option<Seq<u8>>,
    inferred: Seq<char>,
    name: Seq<char>,
)
    requires
        !forwarding_name(name),
    ensures
        ({
            let after = rewritten(contents, authority, peer_ip, original_host, inferred);
            &&& after.contains_key(name) == contents.contains_key(name)
            &&& contents.contains_key(name) ==> after[name] == contents[name]
        }),
{
}

/// A forwarded request carries each header that names its way exactly once: the upstream as its
/// host, the chain of addresses, the protocol, the element that sums them up, and the host it was
/// sent to where it named one. What it said of its protocol before stays as it is.
pub proof fn forwarding_names_the_way(
    contents: Map<Seq<char>, Seq<Seq<u8>>>,
    authority: Seq<char>,
    peer_ip: Seq<char>,
    original_host: Option<Seq<u8>>,
    inferred: Seq<char>,
)
    ensures
        ({
            let after = rewritten(contents, authority, peer_ip, original_host, inferred);
            let proto = declared_proto(contents, inferred);
            &&& after.contains_key("host"@) && after["host"@] == seq![utf8::encode_utf8(authority)]
            &&& after.contains_key("x-forwarded-for"@) && after["x-forwarded-for"@] == seq![
                value_or(address_chain(contents, peer_ip), "unknown"@),
            ]
            &&& after.contains_key("forwarded"@) && after["forwarded"@] == seq![
                value_or(forwarded_element(peer_ip, proto), "for=\"unknown\""@),
            ]
            &&& after.contains_key("x-forwarded-proto"@)
            &&& contents.contains_key("x-forwarded-proto"@) ==> after["x-forwarded-proto"@]
                == contents["x-forwarded-proto"@]
            &&& !contents.contains_key("x-forwarded-proto"@) ==> after["x-forwarded-proto"@]
                == seq![value_or(inferred, "http"@)]
            &&& original_host matches Some(host) ==> after.contains_key("x-forwarded-host"@)
                && after["x-forwarded-host"@] == seq![host]
        }),
{
    lemma_names();
}

/// A request that passes through two proxies names both peers behind what it named before: the
/// chain of addresses grows by one at each hop.
pub proof fn chain_grows_at_each_hop(
    contents: Map<Seq<char>, Seq<Seq<u8>>>,
    authority: Seq<char>,
    first_peer: Seq<char>,
    original_host: Option<Seq<u8>>,
    inferred: Seq<char>,
    second_peer: Seq<char>,
)
    requires
        uri::graphic_text(first_peer),
        first_peer.len() > 0,
    ensures
        address_chain(
            rewritten(contents, authority, first_peer, original_host, inferred),
            second_peer,
        ) == address_chain(contents, first_peer) + ", "@ + second_peer,
{
    forwarding_names_the_way(contents, authority, first_peer, original_host, inferred);
    let chain = address_chain(contents, first_peer);
    assert forall|i: int| 0 <= i < first_peer.len() implies '!' <= #[trigger] first_peer[i]
        <= '~' by {
        lemma_graphic_is_visible(first_peer[i]);
    }
    lemma_visible_chain(contents, first_peer);
    assert(chain[chain.len() - 1] == first_peer[first_peer.len() - 1]);
    assert(!blank(chain));
}

/// The bytes of an address chain whose peer is visible ASCII are those of its text.
proof fn lemma_visible_chain(contents: Map<Seq<char>, Seq<Seq<u8>>>, peer_ip: Seq<char>)
    requires
        forall|i: int| 0 <= i < peer_ip.len() ==> ' ' <= #[trigger] peer_ip[i] <= '~',
    ensures
        ({
            let bytes = utf8::encode_utf8(address_chain(contents, peer_ip));
            &&& visible(bytes)
            &&& admissible(bytes)
            &&& ascii_text(bytes) == address_chain(contents, peer_ip)
        }),
{
    let chain = address_chain(contents, peer_ip);
    reveal_strlit(", ");
    assert forall|i: int| 0 <= i < chain.len() implies ' ' <= #[trigger] chain[i] <= '~' || chain[i]
        == '\t' by {
        let before = chain.len() - peer_ip.len();
        if i >= before {
            assert(chain[i] == peer_ip[i - before]);
        } else if i < before - 2 {
            let bytes = first_value(contents, "x-forwarded-for"@)->0;
            assert(visible_byte(bytes[i]));
        }
    }
    lemma_visible_ascii(chain);
}

/// A text of printable ASCII characters, spaces and tabs.
pub open spec fn printable(s: Seq<char>) -> bool {
    forall|i: int| 0 <= i < s.len() ==> ' ' <= #[trigger] s[i] <= '~' || s[i] == '\t'
}

/// A printable text is written into a header value as it is and read back as it is, whatever the
/// fallback. A value with a byte that is not printable ASCII is read as the fallback, and a text
/// with a control character is replaced by it.
pub proof fn printable_text_is_kept(
    s: Seq<char>,
    fallback: Seq<char>,
    bytes: Seq<u8>,
    place: int,
)
    requires
        0 <= place < bytes.len(),
    ensures
        printable(s) ==> value_or(s, fallback) == utf8::encode_utf8(s),
        printable(s) ==> text_or(utf8::encode_utf8(s), fallback) == s,
        bytes[place] >= 127 || (bytes[place] < 32 && bytes[place] != 9) ==> text_or(bytes, fallback)
            == fallback,
        (forall|i: int|
            0 <= i < utf8::encode_utf8(s).len() ==> (#[trigger] utf8::encode_utf8(s)[i] >= 32
                && utf8::encode_utf8(s)[i] != 127) || utf8::encode_utf8(s)[i] == 9) ==> value_or(
            s,
            fallback,
        ) == utf8::encode_utf8(s),
        (bytes[place] == 127 || (bytes[place] < 32 && bytes[place] != 9)) && bytes
            == utf8::encode_utf8(s) ==> value_or(s, fallback) == utf8::encode_utf8(fallback),
{
    if printable(s) {
        lemma_visible_ascii(s);
    }
    if bytes[place] >= 127 || (bytes[place] < 32 && bytes[place] != 9) {
        assert(!visible_byte(bytes[place]));
    }
    if bytes[place] == 127 || (bytes[place] < 32 && bytes[place] != 9) {
        assert(!value_byte(bytes[place]));
    }
    if !admissible(utf8::encode_utf8(s)) {
        let i = choose|i: int|
            0 <= i < utf8::encode_utf8(s).len() && !value_byte(#[trigger] utf8::encode_utf8(s)[i]);
        assert(utf8::encode_utf8(s)[i] < 32 || utf8::encode_utf8(s)[i] == 127);
    }
}

/// The first value of a name is that at the head of its list; a name that is not there has none.
pub proof fn first_value_stands_at_the_head(
    contents: Map<Seq<char>, Seq<Seq<u8>>>,
    name: Seq<char>,
)
    ensures
        contents.contains_key(name) ==> first_value(contents, name) == Some(contents[name].first()),
        !contents.contains_key(name) ==> first_value(contents, name) is None,
{
}

/// A request that names no chain of addresses, or whose chain is blank or not a text, starts one
/// with its peer; one that names a chain has the peer put behind it.
pub proof fn peer_comes_last_in_the_chain(
    contents: Map<Seq<char>, Seq<Seq<u8>>>,
    named: Seq<char>,
    peer_ip: Seq<char>,
    place: int,
)
    ensures
        !contents.contains_key("x-forwarded-for"@) ==> address_chain(contents, peer_ip) == peer_ip,
        contents.contains_key("x-forwarded-for"@) && contents["x-forwarded-for"@].first()
            == utf8::encode_utf8(named) && printable(named) && (exists|i: int|
            0 <= i < named.len() && #[trigger] named[i] != ' ' && named[i] != '\t')
            ==> address_chain(contents, peer_ip) == named + ", "@ + peer_ip,
        contents.contains_key("x-forwarded-for"@) && contents["x-forwarded-for"@].first()
            == utf8::encode_utf8(named) && (forall|i: int|
            0 <= i < named.len() ==> #[trigger] named[i] == ' ' || named[i] == '\t')
            ==> address_chain(contents, peer_ip) == peer_ip,
        contents.contains_key("x-forwarded-for"@) && 0 <= place
            < contents["x-forwarded-for"@].first().len() && (contents["x-forwarded-for"@].first()[place]
            >= 127 || (contents["x-forwarded-for"@].first()[place] < 32
            && contents["x-forwarded-for"@].first()[place] != 9)) ==> address_chain(
            contents,
            peer_ip,
        ) == peer_ip,
{
    if contents.contains_key("x-forwarded-for"@) {
        let bytes = contents["x-forwarded-for"@].first();
        if bytes == utf8::encode_utf8(named) {
            if printable(named) {
                lemma_visible_ascii(named);
            } else if forall|i: int|
                0 <= i < named.len() ==> #[trigger] named[i] == ' ' || named[i] == '\t' {
                assert(printable(named));
            }
        }
        if 0 <= place < bytes.len() && (bytes[place] >= 127 || (bytes[place] < 32 && bytes[place]
            != 9)) {
            assert(!visible_byte(bytes[place]));
        }
    }
}

/// The protocol of a request is what its headers say of it where that is a text; else what was
/// inferred, which is the scheme of its URI, or plain HTTP where the URI names none.
pub proof fn protocol_is_declared_or_inferred(
    contents: Map<Seq<char>, Seq<Seq<u8>>>,
    target: UriView,
    inferred: Seq<char>,
    named: Seq<char>,
    place: int,
)
    requires
        inferred == match target.scheme {
            Some(scheme) => scheme,
            None => "http"@,
        },
    ensures
        contents.contains_key("x-forwarded-proto"@) && contents["x-forwarded-proto"@].first()
            == utf8::encode_utf8(named) && printable(named) ==> request_proto(contents, target)
            == named && declared_proto(contents, inferred) == named,
        contents.contains_key("x-forwarded-proto"@) && 0 <= place
            < contents["x-forwarded-proto"@].first().len()
            && (contents["x-forwarded-proto"@].first()[place] >= 127
            || (contents["x-forwarded-proto"@].first()[place] < 32
            && contents["x-forwarded-proto"@].first()[place] != 9)) ==> request_proto(
            contents,
            target,
        ) == inferred && declared_proto(contents, inferred) == inferred,
        !contents.contains_key("x-forwarded-proto"@) ==> request_proto(contents, target)
            == inferred,
        !contents.contains_key("x-forwarded-proto"@) && printable(inferred) ==> declared_proto(
            contents,
            inferred,
        ) == inferred,
{
    if contents.contains_key("x-forwarded-proto"@) {
        let bytes = contents["x-forwarded-proto"@].first();
        if bytes == utf8::encode_utf8(named) && printable(named) {
            lemma_visible_ascii(named);
        }
        if 0 <= place < bytes.len() && (bytes[place] >= 127 || (bytes[place] < 32 && bytes[place]
            != 9)) {
            assert(!visible_byte(bytes[place]));
        }
    }
    if printable(inferred) {
        lemma_visible_ascii(inferred);
    }
}

/// A forwarded request writes out its way in full: behind the chain of addresses that it named
/// comes its peer, and the element that sums up its way quotes the peer and gives its protocol.
pub proof fn way_is_written_out(
    contents: Map<Seq<char>, Seq<Seq<u8>>>,
    authority: Seq<char>,
    peer_ip: Seq<char>,
    original_host: Option<Seq<u8>>,
    inferred: Seq<char>,
)
    requires
        printable(peer_ip),
        printable(inferred),
    ensures
        ({
            let after = rewritten(contents, authority, peer_ip, original_host, inferred);
            let proto = declared_proto(contents, inferred);
            &&& after["x-forwarded-for"@] == seq![
                utf8::encode_utf8(address_chain(contents, peer_ip)),
            ]
            &&& after["forwarded"@] == seq![
                utf8::encode_utf8("for=\""@ + peer_ip + "\";proto="@ + proto),
            ]
            &&& after["host"@] == seq![utf8::encode_utf8(authority)]
            &&& !contents.contains_key("x-forwarded-proto"@) ==> after["x-forwarded-proto"@]
                == seq![utf8::encode_utf8(inferred)]
        }),
{
    forwarding_names_the_way(contents, authority, peer_ip, original_host, inferred);
    let proto = declared_proto(contents, inferred);
    let element = "for=\""@ + peer_ip + "\";proto="@ + proto;
    reveal_strlit("for=\"");
    reveal_strlit("\";proto=");
    reveal_strlit(", ");
    reveal_strlit("http");
    lemma_visible_ascii(inferred);
    let chain = address_chain(contents, peer_ip);
    assert(printable(chain)) by {
        assert forall|i: int| 0 <= i < chain.len() implies ' ' <= #[trigger] chain[i] <= '~'
            || chain[i] == '\t' by {
            let before = chain.len() - peer_ip.len();
            if i >= before {
                assert(chain[i] == peer_ip[i - before]);
            } else if i < before - 2 {
                assert(visible_byte(contents["x-forwarded-for"@][0][i]));
            }
        }
    }
    lemma_visible_ascii(chain);
    assert(printable(proto)) by {
        assert forall|i: int| 0 <= i < proto.len() implies ' ' <= #[trigger] proto[i] <= '~'
            || proto[i] == '\t' by {
            if contents.contains_key("x-forwarded-proto"@) {
                let bytes = contents["x-forwarded-proto"@][0];
                if visible(bytes) {
                    assert(visible_byte(bytes[i]));
                }
            }
        }
    }
    assert(printable(element)) by {
        assert forall|i: int| 0 <= i < element.len() implies ' ' <= #[trigger] element[i] <= '~'
            || element[i] == '\t' by {
            let a = 5 + peer_ip.len();
            if 5 <= i < a {
                assert(element[i] == peer_ip[i - 5]);
            } else if a <= i < a + 8 {
                assert(element[i] == "\";proto="@[i - a]);
            } else if i >= a + 8 {
                assert(element[i] == proto[i - a - 8]);
            }
        }
    }
    lemma_visible_ascii(element);
}

/// A request that named no host of its own keeps what it said of one before.
pub proof fn unnamed_host_is_not_made_up(
    contents: Map<Seq<char>, Seq<Seq<u8>>>,
    authority: Seq<char>,
    peer_ip: Seq<char>,
    inferred: Seq<char>,
)
    ensures
        ({
            let after = rewritten(contents, authority, peer_ip, None, inferred);
            &&& after.contains_key("x-forwarded-host"@) == contents.contains_key(
                "x-forwarded-host"@,
            )
            &&& contents.contains_key("x-forwarded-host"@) ==> after["x-forwarded-host"@]
                == contents["x-forwarded-host"@]
        }),
{
    lemma_names();
}

/// A response is encoded exactly if it names an encoding other than "identity", and with gzip
/// exactly if it names "gzip" or "x-gzip".
pub proof fn encoding_is_the_one_named(
    contents: Map<Seq<char>, Seq<Seq<u8>>>,
    named: Seq<char>,
)
    ensures
        !contents.contains_key("content-encoding"@) ==> !encoded(contents) && !gzip_encoded(
            contents,
        ),
        contents.contains_key("content-encoding"@) && contents["content-encoding"@].first()
            == utf8::encode_utf8(named) ==> (encoded(contents) <==> named != "identity"@) && (
        gzip_encoded(contents) <==> named == "gzip"@ || named == "x-gzip"@),
        gzip_encoded(contents) ==> encoded(contents),
{
    utf8::encode_utf8_decode_utf8(named);
    utf8::encode_utf8_decode_utf8("identity"@);
    utf8::encode_utf8_decode_utf8("gzip"@);
    utf8::encode_utf8_decode_utf8("x-gzip"@);
    reveal_strlit("identity");
    reveal_strlit("gzip");
    reveal_strlit("x-gzip");
    assert("identity"@.len() == 8 && "gzip"@.len() == 4 && "x-gzip"@.len() == 6);
}

/// A value that is added to the headers comes behind those that the name had, if any, and leaves
/// every other name as it is.
pub proof fn added_value_comes_last(
    contents: Map<Seq<char>, Seq<Seq<u8>>>,
    name: Seq<char>,
    value: Seq<u8>,
    other: Seq<char>,
)
    requires
        other != name,
    ensures
        ({
            let after = appended(contents, name, value);
            &&& after.contains_key(name)
            &&& contents.contains_key(name) ==> after[name] == contents[name] + seq![value]
            &&& !contents.contains_key(name) ==> after[name] == seq![value]
            &&& after.contains_key(other) == contents.contains_key(other)
            &&& contents.contains_key(other) ==> after[other] == contents[other]
        }),
{
    if contents.contains_key(name) {
        assert(appended(contents, name, value)[name] =~= contents[name] + seq![value]);
    }
}

/// Headers of up to 6548 names take those that forwarding adds, and of up to 6553 names the note
/// that a response came through this proxy.
pub proof fn ordinary_headers_have_room(contents: Map<Seq<char>, Seq<Seq<u8>>>)
    requires
        contents.dom().finite(),
    ensures
        has_room(contents, FORWARDED_NAMES as nat) <==> contents.dom().len() <= 6548,
        has_room(contents, 0) <==> contents.dom().len() <= 6553,
{
}

/// Forwarding writes no header but the host, the chain of addresses, the protocol, the host that
/// was asked for and the element that sums them up: a header of any other name comes out with the
/// same values.
pub proof fn headers_of_other_names_pass_through(
    contents: Map<Seq<char>, Seq<Seq<u8>>>,
    authority: Seq<char>,
    peer_ip: Seq<char>,
    original_host: Option<Seq<u8>>,
    inferred: Seq<char>,
    name: Seq<char>,
)
    requires
        name != "host"@,
        name != "x-forwarded-for"@,
        name != "x-forwarded-proto"@,
        name != "x-forwarded-host"@,
        name != "forwarded"@,
    ensures
        ({
            let after = rewritten(contents, authority, peer_ip, original_host, inferred);
            &&& after.contains_key(name) == contents.contains_key(name)
            &&& contents.contains_key(name) ==> after[name] == contents[name]
        }),
{
}

/// What a forwarded request carries: its upstream as the host, the chain of addresses with the
/// peer behind what it named before, the element that quotes the peer and gives the protocol, the
/// host that it was sent to; and every header of another name as it came.
pub proof fn request_is_sent_on_with_its_way(
    headers: &mut HeaderMap<HeaderValue>,
    prepared: PreparedUpstream,
    peer_ip: &str,
    original_host: Option<HeaderValue>,
    inferred_proto: &str,
    named: Seq<char>,
    name: Seq<char>,
)
    requires
        call_ensures(
            rewrite_request_headers,
            (headers, &prepared, peer_ip, original_host, inferred_proto),
            (),
        ),
        printable(peer_ip@),
        printable(inferred_proto@),
        name != "host"@,
        name != "x-forwarded-for"@,
        name != "x-forwarded-proto"@,
        name != "x-forwarded-host"@,
        name != "forwarded"@,
    ensures
        ({
            let before = header_contents(*old(headers));
            let after = header_contents(*final(headers));
            let chained = before.contains_key("x-forwarded-for"@);
            let declared = before.contains_key("x-forwarded-proto"@);
            &&& after["host"@] == seq![utf8::encode_utf8(prepared.authority@)]
            &&& !chained ==> after["x-forwarded-for"@] == seq![utf8::encode_utf8(peer_ip@)]
            &&& chained && before["x-forwarded-for"@].first() == utf8::encode_utf8(named)
                && printable(named) && (exists|i: int|
                0 <= i < named.len() && #[trigger] named[i] != ' ' && named[i] != '\t')
                ==> after["x-forwarded-for"@] == seq![
                utf8::encode_utf8(named + ", "@ + peer_ip@),
            ]
            &&& !declared ==> after["x-forwarded-proto"@] == seq![
                utf8::encode_utf8(inferred_proto@),
            ]
            &&& declared ==> after["x-forwarded-proto"@] == before["x-forwarded-proto"@]
            &&& !declared ==> after["forwarded"@] == seq![
                utf8::encode_utf8("for=\""@ + peer_ip@ + "\";proto="@ + inferred_proto@),
            ]
            &&& declared && before["x-forwarded-proto"@].first() == utf8::encode_utf8(named)
                && printable(named) ==> after["forwarded"@] == seq![
                utf8::encode_utf8("for=\""@ + peer_ip@ + "\";proto="@ + named),
            ]
            &&& original_host is Some ==> after["x-forwarded-host"@] == seq![
                value_bytes(original_host->Some_0),
            ]
            &&& after.contains_key(name) == before.contains_key(name)
            &&& before.contains_key(name) ==> after[name] == before[name]
        }),
{
    let before = header_contents(*old(headers));
    let host = bytes_of_option(original_host);
    let target = UriView {
        scheme: Some(inferred_proto@),
        authority: None,
        path: Seq::empty(),
        query: None,
    };
    way_is_written_out(before, prepared.authority@, peer_ip@, host, inferred_proto@);
    forwarding_names_the_way(before, prepared.authority@, peer_ip@, host, inferred_proto@);
    peer_comes_last_in_the_chain(before, named, peer_ip@, 0);
    protocol_is_declared_or_inferred(before, target, inferred_proto@, named, 0);
    headers_of_other_names_pass_through(
        before,
        prepared.authority@,
        peer_ip@,
        host,
        inferred_proto@,
        name,
    );
}

/// A response carries one more note of its way behind those that it had, which names this proxy;
/// its other headers stay as they are.
pub proof fn response_is_marked_once(headers: &mut HeaderMap<HeaderValue>, other: Seq<char>)
    requires
        call_ensures(mark_response, (headers,), ()),
        other != "via"@,
    ensures
        ({
            let before = header_contents(*old(headers));
            let after = header_contents(*final(headers));
            let mark = utf8::encode_utf8("1.1 roxy"@);
            &&& after.contains_key("via"@)
            &&& before.contains_key("via"@) ==> after["via"@] == before["via"@] + seq![mark]
            &&& !before.contains_key("via"@) ==> after["via"@] == seq![mark]
            &&& after.contains_key(other) == before.contains_key(other)
            &&& before.contains_key(other) ==> after[other] == before[other]
        }),
{
    added_value_comes_last(
        header_contents(*old(headers)),
        "via"@,
        utf8::encode_utf8("1.1 roxy"@),
        other,
    );
}

/// The protocol of a request is what its headers declare in a text, else the scheme of its URI,
/// else plain HTTP.
pub proof fn protocol_is_inferred(
    headers: HeaderMap<HeaderValue>,
    uri: Uri,
    r: String,
    named: Seq<char>,
)
    requires
        call_ensures(infer_request_proto, (&headers, &uri), r),
    ensures
        ({
            let contents = header_contents(headers);
            let declared = contents.contains_key("x-forwarded-proto"@);
            &&& declared && contents["x-forwarded-proto"@].first() == utf8::encode_utf8(named)
                && printable(named) ==> r@ == named
            &&& !declared && uri.scheme is Some ==> r@ == uri.scheme->Some_0@
            &&& !declared && uri.scheme is None ==> r@ == "http"@
        }),
{
    let inferred = match uri@.scheme {
        Some(scheme) => scheme,
        None => "http"@,
    };
    protocol_is_declared_or_inferred(header_contents(headers), uri@, inferred, named, 0);
}

} // verus!
