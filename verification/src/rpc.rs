//! JSON-RPC payloads: which methods a request body calls, and which errors a response reports.

use axum::http::{HeaderMap, HeaderValue};
use vstd::prelude::*;

use crate::gzip;
use crate::headers;
use crate::text;
use crate::uri;

verus! {

/// What a request body looks like from its first byte that is not white space.
#[derive(Debug, Clone, Copy, PartialEq, Eq)]
pub enum PayloadKind {
    /// One JSON-RPC call.
    Single,
    /// A list of JSON-RPC calls.
    Batch,
    /// No JSON-RPC payload.
    Other,
}

/// A byte of ASCII white space.
pub open spec fn white_space(b: u8) -> bool {
    b == 0x20 || b == 0x09 || b == 0x0A || b == 0x0C || b == 0x0D
}

/// The first byte that is not white space.
pub open spec fn first_visible(bytes: Seq<u8>) -> Option<u8>
    decreases bytes.len(),
{
    if bytes.len() == 0 {
        None
    } else if !white_space(bytes.first()) {
        Some(bytes.first())
    } else {
        first_visible(bytes.drop_first())
    }
}

/// The kind of a payload.
pub open spec fn kind_of(bytes: Seq<u8>) -> PayloadKind {
    match first_visible(bytes) {
        Some(b) => if b == 0x7B {
            PayloadKind::Single
        } else if b == 0x5B {
            PayloadKind::Batch
        } else {
            PayloadKind::Other
        },
        None => PayloadKind::Other,
    }
}

/// The kind of a payload.
pub fn payload_kind(bytes: &[u8]) -> (r: PayloadKind)
    ensures
        r == kind_of(bytes@),
{
    let mut i: usize = 0;
    assert(bytes@.skip(0) =~= bytes@);
    while i < bytes.len()
        invariant
            i <= bytes@.len(),
            first_visible(bytes@.skip(i as int)) == first_visible(bytes@),
        decreases bytes@.len() - i,
    {
        let b: u8 = bytes[i];
        assert(bytes@.skip(i as int).drop_first() =~= bytes@.skip(i + 1));
        if !(b == 0x20 || b == 0x09 || b == 0x0A || b == 0x0C || b == 0x0D) {
            return if b == 0x7B {
                PayloadKind::Single
            } else if b == 0x5B {
                PayloadKind::Batch
            } else {
                PayloadKind::Other
            };
        }
        i += 1;
    }
    PayloadKind::Other
}

/// What is read off a payload, item by item. `parse_single` reads the item of a payload that holds
/// one, `parse_batch` those of a payload that holds a list; a payload that is neither holds none.
pub open spec fn read_off<
    T,
    E,
    S: FnOnce(&[u8]) -> Result<T, E>,
    B: FnOnce(&[u8]) -> Result<Vec<T>, E>,
>(bytes: &[u8], parse_single: S, parse_batch: B, r: Result<Vec<T>, E>) -> bool {
    match kind_of(bytes@) {
        PayloadKind::Single => exists|item: Result<T, E>|
            {
                &&& #[trigger] call_ensures(parse_single, (bytes,), item)
                &&& match item {
                    Ok(only) => r matches Ok(items) && items@ == seq![only],
                    Err(e) => r == Err::<Vec<T>, E>(e),
                }
            },
        PayloadKind::Batch => call_ensures(parse_batch, (bytes,), r),
        PayloadKind::Other => r matches Ok(items) && items@.len() == 0,
    }
}

fn read_items<T, E, S: FnOnce(&[u8]) -> Result<T, E>, B: FnOnce(&[u8]) -> Result<Vec<T>, E>>(
    bytes: &[u8],
    parse_single: S,
    parse_batch: B,
) -> (r: Result<Vec<T>, E>)
    requires
        call_requires(parse_single, (bytes,)),
        call_requires(parse_batch, (bytes,)),
    ensures
        read_off(bytes, parse_single, parse_batch, r),
{
    match payload_kind(bytes) {
        PayloadKind::Single => {
            let item = parse_single(bytes);
            let ghost read = item;
            assert(call_ensures(parse_single, (bytes,), read));
            match item {
                Ok(only) => {
                    let items = vec![only];
                    assert(items@ =~= seq![only]);
                    Ok(items)
                },
                Err(e) => Err(e),
            }
        },
        PayloadKind::Batch => parse_batch(bytes),
        PayloadKind::Other => Ok(Vec::new()),
    }
}

/// The methods that a request body calls. `parse_single` reads the method of one call,
/// `parse_batch` those of a list of calls; a body that is neither calls none.
pub fn extract_methods<
    E,
    S: FnOnce(&[u8]) -> Result<String, E>,
    B: FnOnce(&[u8]) -> Result<Vec<String>, E>,
>(bytes: &[u8], parse_single: S, parse_batch: B) -> (r: Result<Vec<String>, E>)
    requires
        call_requires(parse_single, (bytes,)),
        call_requires(parse_batch, (bytes,)),
    ensures
        read_off(bytes, parse_single, parse_batch, r),
{
    read_items(bytes, parse_single, parse_batch)
}

/// The ids by which the replies to a request body name its calls. `parse_single` reads the id of
/// one call, `parse_batch` those of a list of calls; a call to which no reply is due has none.
pub fn extract_ids<
    E,
    S: FnOnce(&[u8]) -> Result<Option<String>, E>,
    B: FnOnce(&[u8]) -> Result<Vec<Option<String>>, E>,
>(bytes: &[u8], parse_single: S, parse_batch: B) -> (r: Result<Vec<Option<String>>, E>)
    requires
        call_requires(parse_single, (bytes,)),
        call_requires(parse_batch, (bytes,)),
    ensures
        read_off(bytes, parse_single, parse_batch, r),
{
    read_items(bytes, parse_single, parse_batch)
}

/// One of a list of replies: the id of the call that it answers, if it names one, and the code of
/// its error, if it has one.
#[derive(Debug, PartialEq, Eq)]
pub struct ReplyEntry {
    pub id: Option<String>,
    pub code: Option<i64>,
}

/// What the body of a response says of the calls that it answers.
#[derive(Debug, PartialEq, Eq)]
pub enum Reply {
    /// It was not read.
    Unread,
    /// One reply, with the code of its error if it has one.
    Single(Option<i64>),
    /// A list of replies.
    Batch(Vec<ReplyEntry>),
}

/// The texts of a list of ids.
pub open spec fn id_texts(ids: Seq<Option<String>>) -> Seq<Option<Seq<char>>> {
    ids.map_values(|id: Option<String>| uri::text_of_option(id))
}

/// The place of the first reply that names the call of an id.
pub open spec fn naming(entries: Seq<ReplyEntry>, id: Seq<char>) -> Option<int>
    decreases entries.len(),
{
    if entries.len() == 0 {
        None
    } else {
        match naming(entries.drop_last(), id) {
            Some(k) => Some(k),
            None => if uri::text_of_option(entries.last().id) == Some(id) {
                Some(entries.len() - 1)
            } else {
                None
            },
        }
    }
}

/// The place of the reply that names a call, given the ids of the calls.
pub open spec fn reply_to(
    entries: Seq<ReplyEntry>,
    ids: Seq<Option<Seq<char>>>,
    call: int,
) -> Option<int> {
    if 0 <= call < ids.len() && ids[call] is Some {
        naming(entries, ids[call]->0)
    } else {
        None
    }
}

impl Reply {
    /// The code of the error with which a call is answered, by the place of the call in its
    /// request and the ids of the calls. One reply answers all calls, whether or not it names one
    /// of them. Of a list, the reply that names the call answers it, wherever it stands; failing
    /// that, a reply at the place of the call that names none.
    pub open spec fn error_of(self, ids: Seq<Option<Seq<char>>>, call: int) -> Option<i64> {
        match self {
            Reply::Unread => None,
            Reply::Single(code) => code,
            Reply::Batch(entries) => match reply_to(entries@, ids, call) {
                Some(k) => entries@[k].code,
                None => if 0 <= call < entries@.len() && entries@[call].id is None {
                    entries@[call].code
                } else {
                    None
                },
            },
        }
    }

    /// The code of the error with which a call is answered.
    pub fn error_code(&self, ids: &[Option<String>], call: usize) -> (r: Option<i64>)
        ensures
            r == self.error_of(id_texts(ids@), call as int),
    {
        let entries = match self {
            Reply::Unread => {
                return None;
            },
            Reply::Single(code) => {
                return *code;
            },
            Reply::Batch(entries) => entries,
        };
        if call < ids.len() {
            assert(id_texts(ids@)[call as int] == uri::text_of_option(ids@[call as int]));
            if let Some(id) = &ids[call] {
                if let Some(k) = find_naming(entries.as_slice(), id.as_str()) {
                    return entries[k].code;
                }
            }
        }
        if call < entries.len() && entries[call].id.is_none() {
            entries[call].code
        } else {
            None
        }
    }
}

fn find_naming(entries: &[ReplyEntry], id: &str) -> (r: Option<usize>)
    ensures
        match r {
            Some(k) => k < entries@.len() && naming(entries@, id@) == Some(k as int),
            None => naming(entries@, id@) is None,
        },
{
    let mut k: usize = 0;
    while k < entries.len()
        invariant
            k <= entries@.len(),
            naming(entries@.take(k as int), id@) is None,
        decreases entries@.len() - k,
    {
        assert(entries@.take(k + 1).drop_last() =~= entries@.take(k as int));
        if let Some(given) = &entries[k].id {
            if text::same_text(given.as_str(), id) {
                proof {
                    lemma_naming_stays(entries@, id@, k + 1);
                }
                return Some(k);
            }
        }
        k += 1;
    }
    assert(entries@.take(entries@.len() as int) =~= entries@);
    None
}

proof fn lemma_naming_stays(entries: Seq<ReplyEntry>, id: Seq<char>, n: int)
    requires
        0 <= n <= entries.len(),
        naming(entries.take(n), id) is Some,
    ensures
        naming(entries, id) == naming(entries.take(n), id),
    decreases entries.len() - n,
{
    if n < entries.len() {
        assert(entries.take(n + 1).drop_last() =~= entries.take(n));
        lemma_naming_stays(entries, id, n + 1);
    } else {
        assert(entries.take(n) =~= entries);
    }
}

/// Replies may come in any order: the one that alone names a call answers it, wherever it stands.
pub proof fn reply_is_matched_by_its_id(
    entries: Vec<ReplyEntry>,
    ids: Seq<Option<Seq<char>>>,
    call: int,
    place: int,
)
    requires
        0 <= call < ids.len(),
        ids[call] is Some,
        0 <= place < entries@.len(),
        uri::text_of_option(entries@[place].id) == ids[call],
        forall|k: int|
            0 <= k < entries@.len() && k != place ==> uri::text_of_option(
                (#[trigger] entries@[k]).id,
            ) != ids[call],
    ensures
        Reply::Batch(entries).error_of(ids, call) == entries@[place].code,
{
    lemma_only_naming(entries@, ids[call]->0, place);
}

proof fn lemma_only_naming(entries: Seq<ReplyEntry>, id: Seq<char>, place: int)
    requires
        0 <= place < entries.len(),
        uri::text_of_option(entries[place].id) == Some(id),
        forall|k: int|
            0 <= k < place ==> uri::text_of_option((#[trigger] entries[k]).id) != Some(id),
    ensures
        naming(entries, id) == Some(place),
    decreases entries.len(),
{
    let head = entries.drop_last();
    if place < head.len() {
        assert forall|k: int| 0 <= k < place implies uri::text_of_option((#[trigger] head[k]).id)
            != Some(id) by {
            assert(head[k] == entries[k]);
        }
        lemma_only_naming(head, id, place);
    } else {
        assert forall|k: int| 0 <= k < head.len() implies uri::text_of_option(
            (#[trigger] head[k]).id,
        ) != Some(id) by {
            assert(head[k] == entries[k]);
        }
        lemma_none_naming(head, id);
    }
}

proof fn lemma_none_naming(entries: Seq<ReplyEntry>, id: Seq<char>)
    requires
        forall|k: int|
            0 <= k < entries.len() ==> uri::text_of_option((#[trigger] entries[k]).id) != Some(id),
    ensures
        naming(entries, id) is None,
    decreases entries.len(),
{
    if entries.len() > 0 {
        let head = entries.drop_last();
        assert forall|k: int| 0 <= k < head.len() implies uri::text_of_option(
            (#[trigger] head[k]).id,
        ) != Some(id) by {
            assert(head[k] == entries[k]);
        }
        lemma_none_naming(head, id);
        assert(entries.last() == entries[entries.len() - 1]);
    }
}

/// The class of a JSON-RPC error code: the codes that JSON-RPC defines, those that it leaves to
/// servers, and the code with which an EVM node reports a reverted execution.
pub open spec fn error_class(code: i64) -> Seq<char> {
    if code == -32700 {
        "parse_error"@
    } else if code == -32600 {
        "invalid_request"@
    } else if code == -32601 {
        "method_not_found"@
    } else if code == -32602 {
        "invalid_params"@
    } else if code == -32603 {
        "internal_error"@
    } else if -32099 <= code <= -32000 {
        "server_error"@
    } else if code == 3 {
        "execution_error"@
    } else {
        "other"@
    }
}

/// The label under which an error is counted, given the code that a response says, if any.
pub fn error_label(code: Option<i64>) -> (r: Option<&'static str>)
    ensures
        match code {
            Some(c) => r is Some && r->0@ == error_class(c),
            None => r is None,
        },
{
    let code: i64 = match code {
        Some(code) => code,
        None => {
            return None;
        },
    };
    let label = if code == -32700 {
        "parse_error"
    } else if code == -32600 {
        "invalid_request"
    } else if code == -32601 {
        "method_not_found"
    } else if code == -32602 {
        "invalid_params"
    } else if code == -32603 {
        "internal_error"
    } else if -32099 <= code && code <= -32000 {
        "server_error"
    } else if code == 3 {
        "execution_error"
    } else {
        "other"
    };
    Some(label)
}

/// What a body says that is read as it stands. `parse_single` reads the error code of one reply,
/// `parse_batch` a list of replies; a body that is neither, or that cannot be read, says nothing.
pub open spec fn reading<
    E,
    S: FnOnce(&[u8]) -> Result<Option<i64>, E>,
    B: FnOnce(&[u8]) -> Result<Vec<ReplyEntry>, E>,
>(bytes: &[u8], parse_single: S, parse_batch: B, r: Reply) -> bool {
    match kind_of(bytes@) {
        PayloadKind::Single => exists|reply: Result<Option<i64>, E>|
            {
                &&& #[trigger] call_ensures(parse_single, (bytes,), reply)
                &&& r == match reply {
                    Ok(code) => Reply::Single(code),
                    Err(_) => Reply::Unread,
                }
            },
        PayloadKind::Batch => exists|replies: Result<Vec<ReplyEntry>, E>|
            {
                &&& #[trigger] call_ensures(parse_batch, (bytes,), replies)
                &&& r == match replies {
                    Ok(entries) => Reply::Batch(entries),
                    Err(_) => Reply::Unread,
                }
            },
        PayloadKind::Other => r == Reply::Unread,
    }
}

/// What the body of a response says.
pub fn inspect_reply<
    E,
    S: FnOnce(&[u8]) -> Result<Option<i64>, E>,
    B: FnOnce(&[u8]) -> Result<Vec<ReplyEntry>, E>,
>(bytes: &[u8], parse_single: S, parse_batch: B) -> (r: Reply)
    requires
        call_requires(parse_single, (bytes,)),
        call_requires(parse_batch, (bytes,)),
    ensures
        reading(bytes, parse_single, parse_batch, r),
{
    match payload_kind(bytes) {
        PayloadKind::Single => {
            let reply = parse_single(bytes);
            let ghost read = reply;
            assert(call_ensures(parse_single, (bytes,), read));
            match reply {
                Ok(code) => Reply::Single(code),
                Err(_) => Reply::Unread,
            }
        },
        PayloadKind::Batch => {
            let replies = parse_batch(bytes);
            let ghost read = replies;
            assert(call_ensures(parse_batch, (bytes,), read));
            match replies {
                Ok(entries) => Reply::Batch(entries),
                Err(_) => Reply::Unread,
            }
        },
        PayloadKind::Other => Reply::Unread,
    }
}

/// How many bytes of a response are read for what it says, after decoding.
pub const MAX_REPLY_BYTES: usize = 64 * 1024 * 1024;

/// What the decoded body of a response says; nothing where it could not be decoded.
pub fn inspect_decoded_reply<
    E,
    S: FnOnce(&[u8]) -> Result<Option<i64>, E>,
    B: FnOnce(&[u8]) -> Result<Vec<ReplyEntry>, E>,
>(decoded: Option<Vec<u8>>, parse_single: S, parse_batch: B) -> (r: Reply)
    requires
        forall|plain: &[u8]| #[trigger] call_requires(parse_single, (plain,)),
        forall|plain: &[u8]| #[trigger] call_requires(parse_batch, (plain,)),
    ensures
        match decoded {
            Some(bytes) => exists|plain: &[u8]|
                plain@ == bytes@ && #[trigger] reading(plain, parse_single, parse_batch, r),
            None => r == Reply::Unread,
        },
{
    match decoded {
        Some(bytes) => {
            let plain = bytes.as_slice();
            let r = inspect_reply(plain, parse_single, parse_batch);
            assert(plain@ == bytes@ && reading(plain, parse_single, parse_batch, r));
            r
        },
        None => Reply::Unread,
    }
}

/// What the gzip-encoded body of a response says: what it says decoded. One that the decoder
/// refuses says nothing.
pub fn inspect_gzip_reply<
    E,
    S: FnOnce(&[u8]) -> Result<Option<i64>, E>,
    B: FnOnce(&[u8]) -> Result<Vec<ReplyEntry>, E>,
>(bytes: &[u8], parse_single: S, parse_batch: B) -> (r: Reply)
    requires
        forall|plain: &[u8]| #[trigger] call_requires(parse_single, (plain,)),
        forall|plain: &[u8]| #[trigger] call_requires(parse_batch, (plain,)),
    ensures
        match gzip::gunzipped(bytes@, MAX_REPLY_BYTES as u64) {
            Some(decoded) => exists|plain: &[u8]|
                plain@ == decoded && #[trigger] reading(plain, parse_single, parse_batch, r),
            None => r == Reply::Unread,
        },
{
    inspect_decoded_reply(gzip::gunzip(bytes, MAX_REPLY_BYTES as u64), parse_single, parse_batch)
}

/// What the body of a response says, as its headers say that it is encoded: as it stands where it
/// is not encoded, decoded where it is encoded with gzip, and nothing where it is encoded
/// otherwise.
pub fn inspect_response<
    E,
    S: FnOnce(&[u8]) -> Result<Option<i64>, E>,
    B: FnOnce(&[u8]) -> Result<Vec<ReplyEntry>, E>,
>(headers: &HeaderMap<HeaderValue>, bytes: &[u8], parse_single: S, parse_batch: B) -> (r: Reply)
    requires
        forall|plain: &[u8]| #[trigger] call_requires(parse_single, (plain,)),
        forall|plain: &[u8]| #[trigger] call_requires(parse_batch, (plain,)),
    ensures
        ({
            let contents = headers::header_contents(*headers);
            if !headers::encoded(contents) {
                reading(bytes, parse_single, parse_batch, r)
            } else if headers::gzip_encoded(contents) {
                match gzip::gunzipped(bytes@, MAX_REPLY_BYTES as u64) {
                    Some(decoded) => exists|plain: &[u8]|
                        plain@ == decoded && #[trigger] reading(
                            plain,
                            parse_single,
                            parse_batch,
                            r,
                        ),
                    None => r == Reply::Unread,
                }
            } else {
                r == Reply::Unread
            }
        }),
{
    if !headers::is_encoded(headers) {
        inspect_reply(bytes, parse_single, parse_batch)
    } else if headers::is_gzip(headers) {
        inspect_gzip_reply(bytes, parse_single, parse_batch)
    } else {
        Reply::Unread
    }
}

/// White space before a payload does not count.
pub proof fn leading_white_space_does_not_count(space: Seq<u8>, bytes: Seq<u8>)
    requires
        forall|i: int| 0 <= i < space.len() ==> white_space(#[trigger] space[i]),
    ensures
        kind_of(space + bytes) == kind_of(bytes),
    decreases space.len(),
{
    if space.len() > 0 {
        assert(white_space(space[0]));
        assert((space + bytes).drop_first() =~= space.drop_first() + bytes);
        leading_white_space_does_not_count(space.drop_first(), bytes);
    } else {
        assert(space + bytes =~= bytes);
    }
}

/// The bytes that count as white space: space, tab, line feed, form feed and carriage return.
pub proof fn white_space_bytes(b: u8)
    ensures
        white_space(b) <==> seq![0x09u8, 0x0Au8, 0x0Cu8, 0x0Du8, 0x20u8].contains(b),
{
    let all = seq![0x09u8, 0x0Au8, 0x0Cu8, 0x0Du8, 0x20u8];
    assert(all[0] == 0x09 && all[1] == 0x0A && all[2] == 0x0C && all[3] == 0x0D && all[4] == 0x20);
}

/// The first byte behind the white space tells the kind of a payload: an opening brace stands for
/// one call, an opening bracket for a list of calls, and anything else, or nothing at all, for
/// neither, whatever follows.
pub proof fn first_byte_tells_the_kind(space: Seq<u8>, first: u8, rest: Seq<u8>)
    requires
        forall|i: int| 0 <= i < space.len() ==> white_space(#[trigger] space[i]),
        !white_space(first),
    ensures
        kind_of(space + seq![first] + rest) == PayloadKind::Single <==> first == '{' as u8,
        kind_of(space + seq![first] + rest) == PayloadKind::Batch <==> first == '[' as u8,
        kind_of(space) == PayloadKind::Other,
{
    let bytes = seq![first] + rest;
    assert(space + seq![first] + rest =~= space + bytes);
    leading_white_space_does_not_count(space, bytes);
    assert(bytes.first() == first);
    leading_white_space_does_not_count(space, Seq::empty());
    assert(space + Seq::<u8>::empty() =~= space);
}

/// What is read off a list of calls is what the parser of lists gave, whatever its length: as
/// many items, each at its place, or its error.
pub proof fn list_is_read_off_in_full<
    T,
    E,
    S: FnOnce(&[u8]) -> Result<T, E>,
    B: FnOnce(&[u8]) -> Result<Vec<T>, E>,
>(
    bytes: &[u8],
    parse_single: S,
    parse_batch: B,
    parsed: Result<Seq<T>, E>,
    r: Result<Vec<T>, E>,
)
    requires
        kind_of(bytes@) == PayloadKind::Batch,
        forall|given: Result<Vec<T>, E>| #[trigger]
            call_ensures(parse_batch, (bytes,), given) ==> match parsed {
                Ok(items) => given matches Ok(list) && list@ == items,
                Err(e) => given == Err::<Vec<T>, E>(e),
            },
        read_off(bytes, parse_single, parse_batch, r),
    ensures
        call_ensures(parse_batch, (bytes,), r),
        match parsed {
            Ok(items) => {
                &&& r is Ok
                &&& r->Ok_0@.len() == items.len()
                &&& forall|i: int| 0 <= i < items.len() ==> #[trigger] r->Ok_0@[i] == items[i]
            },
            Err(e) => r == Err::<Vec<T>, E>(e),
        },
{
}

/// What is read off one call is the one item that the parser of calls gave, or its error.
pub proof fn one_call_is_read_off_as_one_item<
    T,
    E,
    S: FnOnce(&[u8]) -> Result<T, E>,
    B: FnOnce(&[u8]) -> Result<Vec<T>, E>,
>(bytes: &[u8], parse_single: S, parse_batch: B, parsed: Result<T, E>, r: Result<Vec<T>, E>)
    requires
        kind_of(bytes@) == PayloadKind::Single,
        forall|given: Result<T, E>| #[trigger]
            call_ensures(parse_single, (bytes,), given) ==> given == parsed,
        read_off(bytes, parse_single, parse_batch, r),
    ensures
        match parsed {
            Ok(item) => r is Ok && r->Ok_0@.len() == 1 && r->Ok_0@[0] == item,
            Err(e) => r == Err::<Vec<T>, E>(e),
        },
{
}

/// A payload that is neither one call nor a list of calls is read without error and holds none.
pub proof fn nothing_is_read_off_another_payload<
    T,
    E,
    S: FnOnce(&[u8]) -> Result<T, E>,
    B: FnOnce(&[u8]) -> Result<Vec<T>, E>,
>(bytes: &[u8], parse_single: S, parse_batch: B, r: Result<Vec<T>, E>)
    requires
        kind_of(bytes@) == PayloadKind::Other,
        read_off(bytes, parse_single, parse_batch, r),
    ensures
        r is Ok,
        r->Ok_0@ == Seq::<T>::empty(),
{
}

/// A response body that is a list of replies says exactly the replies that the parser of lists
/// gave, as many and each at its place, and nothing where the parser refused it.
pub proof fn replies_are_read_in_full<
    E,
    S: FnOnce(&[u8]) -> Result<Option<i64>, E>,
    B: FnOnce(&[u8]) -> Result<Vec<ReplyEntry>, E>,
>(bytes: &[u8], parse_single: S, parse_batch: B, parsed: Option<Seq<ReplyEntry>>, r: Reply)
    requires
        kind_of(bytes@) == PayloadKind::Batch,
        forall|given: Result<Vec<ReplyEntry>, E>| #[trigger]
            call_ensures(parse_batch, (bytes,), given) ==> match parsed {
                Some(entries) => given matches Ok(list) && list@ == entries,
                None => given is Err,
            },
        reading(bytes, parse_single, parse_batch, r),
    ensures
        match parsed {
            Some(entries) => {
                &&& r is Batch
                &&& r->Batch_0@.len() == entries.len()
                &&& forall|i: int|
                    0 <= i < entries.len() ==> #[trigger] r->Batch_0@[i] == entries[i]
            },
            None => r == Reply::Unread,
        },
{
}

/// A response body that is one reply says the error code that the parser of replies gave, and
/// nothing where the parser refused it; one that is no reply at all says nothing.
pub proof fn one_reply_is_read_as_it_is<
    E,
    S: FnOnce(&[u8]) -> Result<Option<i64>, E>,
    B: FnOnce(&[u8]) -> Result<Vec<ReplyEntry>, E>,
>(bytes: &[u8], parse_single: S, parse_batch: B, parsed: Option<Option<i64>>, r: Reply)
    requires
        forall|given: Result<Option<i64>, E>| #[trigger]
            call_ensures(parse_single, (bytes,), given) ==> match parsed {
                Some(code) => given == Ok::<Option<i64>, E>(code),
                None => given is Err,
            },
        reading(bytes, parse_single, parse_batch, r),
    ensures
        kind_of(bytes@) == PayloadKind::Single && parsed is Some ==> r == Reply::Single(
            parsed->Some_0,
        ),
        kind_of(bytes@) == PayloadKind::Single && parsed is None ==> r == Reply::Unread,
        kind_of(bytes@) == PayloadKind::Other ==> r == Reply::Unread,
{
}

/// The texts of a list of ids are as many as the ids, each at its place.
pub proof fn id_texts_keep_every_id(ids: Seq<Option<String>>)
    ensures
        id_texts(ids).len() == ids.len(),
        forall|i: int|
            0 <= i < ids.len() ==> match ids[i] {
                Some(id) => #[trigger] id_texts(ids)[i] == Some(id@),
                None => id_texts(ids)[i] is None,
            },
{
}

/// One reply answers every call, and a reply that was not read answers none with an error.
pub proof fn one_reply_answers_every_call(
    code: Option<i64>,
    ids: Seq<Option<Seq<char>>>,
    call: int,
)
    ensures
        Reply::Single(code).error_of(ids, call) == code,
        Reply::Unread.error_of(ids, call) is None,
{
}

/// Where several replies of a list name a call, the first of them answers it.
pub proof fn first_reply_that_names_a_call_answers_it(
    entries: Vec<ReplyEntry>,
    ids: Seq<Option<Seq<char>>>,
    call: int,
    place: int,
)
    requires
        0 <= call < ids.len(),
        ids[call] is Some,
        0 <= place < entries@.len(),
        uri::text_of_option(entries@[place].id) == ids[call],
        forall|k: int|
            0 <= k < place ==> uri::text_of_option((#[trigger] entries@[k]).id) != ids[call],
    ensures
        Reply::Batch(entries).error_of(ids, call) == entries@[place].code,
{
    lemma_only_naming(entries@, ids[call]->0, place);
}

/// Where no reply of a list names a call, a reply without id at the place of the call answers it;
/// a reply that names another call does not, nor does one that is not there.
pub proof fn call_that_is_not_named_is_answered_at_its_place(
    entries: Vec<ReplyEntry>,
    ids: Seq<Option<Seq<char>>>,
    call: int,
)
    requires
        0 <= call,
        call < ids.len() && ids[call] is Some ==> forall|k: int|
            0 <= k < entries@.len() ==> uri::text_of_option((#[trigger] entries@[k]).id)
                != ids[call],
    ensures
        call < entries@.len() && entries@[call].id is None ==> Reply::Batch(entries).error_of(
            ids,
            call,
        ) == entries@[call].code,
        call < entries@.len() && entries@[call].id is Some ==> Reply::Batch(entries).error_of(
            ids,
            call,
        ) is None,
        call >= entries@.len() ==> Reply::Batch(entries).error_of(ids, call) is None,
{
    if call < ids.len() && ids[call] is Some {
        lemma_none_naming(entries@, ids[call]->0);
    }
}

/// The classes of error codes part all codes among them: each class has the codes that JSON-RPC,
/// or an EVM node, gives it, and what belongs to none of the named ones is "other".
pub proof fn classes_part_the_codes(code: i64)
    ensures
        error_class(code) == "parse_error"@ <==> code == -32700,
        error_class(code) == "invalid_request"@ <==> code == -32600,
        error_class(code) == "method_not_found"@ <==> code == -32601,
        error_class(code) == "invalid_params"@ <==> code == -32602,
        error_class(code) == "internal_error"@ <==> code == -32603,
        error_class(code) == "server_error"@ <==> -32099 <= code <= -32000,
        error_class(code) == "execution_error"@ <==> code == 3,
        error_class(code) == "other"@ <==> !(code == -32700 || -32603 <= code <= -32600 || -32099
            <= code <= -32000 || code == 3),
{
    reveal_strlit("parse_error");
    reveal_strlit("invalid_request");
    reveal_strlit("method_not_found");
    reveal_strlit("invalid_params");
    reveal_strlit("internal_error");
    reveal_strlit("server_error");
    reveal_strlit("execution_error");
    reveal_strlit("other");
    assert("parse_error"@.len() == 11);
    assert("invalid_request"@.len() == 15);
    assert("method_not_found"@.len() == 16);
    assert("invalid_params"@.len() == 14);
    assert("internal_error"@.len() == 14);
    assert("server_error"@.len() == 12);
    assert("execution_error"@.len() == 15);
    assert("other"@.len() == 5);
    assert("invalid_params"@[2] == 'v' && "internal_error"@[2] == 't');
    assert("invalid_request"@[0] == 'i' && "execution_error"@[0] == 'e');
}

/// A compressed reply is decoded up to 64 MiB.
pub proof fn reply_limit_is_64_mib()
    ensures
        MAX_REPLY_BYTES == 67_108_864,
{
}

/// The methods of a request body are what the parser that its first byte calls for gives of it:
/// all methods of a list, however long, each at its place; the one method of a call; none of a
/// body that is neither.
pub proof fn methods_of_a_body_are_read_in_full<
    E,
    S: FnOnce(&[u8]) -> Result<String, E>,
    B: FnOnce(&[u8]) -> Result<Vec<String>, E>,
>(
    bytes: &[u8],
    parse_single: S,
    parse_batch: B,
    one: Result<String, E>,
    all: Result<Vec<String>, E>,
    r: Result<Vec<String>, E>,
    space: Seq<u8>,
    first: u8,
    rest: Seq<u8>,
)
    requires
        call_ensures(extract_methods::<E, S, B>, (bytes, parse_single, parse_batch), r),
        bytes@ == space + seq![first] + rest,
        forall|i: int| 0 <= i < space.len() ==> white_space(#[trigger] space[i]),
        !white_space(first),
        forall|given: Result<String, E>| #[trigger]
            call_ensures(parse_single, (bytes,), given) ==> given == one,
        forall|given: Result<Vec<String>, E>| #[trigger]
            call_ensures(parse_batch, (bytes,), given) ==> given == all,
    ensures
        first == '[' as u8 ==> r == all,
        first == '{' as u8 && one is Ok ==> r is Ok && r->Ok_0@ == seq![one->Ok_0],
        first == '{' as u8 && one is Err ==> r == Err::<Vec<String>, E>(one->Err_0),
        first != '[' as u8 && first != '{' as u8 ==> r is Ok && r->Ok_0@.len() == 0,
{
    first_byte_tells_the_kind(space, first, rest);
}

/// The ids of a request body are what the parser that its first byte calls for gives of it: all
/// ids of a list, however long, each at its place; the one id of a call; none of a body that is
/// neither.
pub proof fn ids_of_a_body_are_read_in_full<
    E,
    S: FnOnce(&[u8]) -> Result<Option<String>, E>,
    B: FnOnce(&[u8]) -> Result<Vec<Option<String>>, E>,
>(
    bytes: &[u8],
    parse_single: S,
    parse_batch: B,
    one: Result<Option<String>, E>,
    all: Result<Vec<Option<String>>, E>,
    r: Result<Vec<Option<String>>, E>,
    space: Seq<u8>,
    first: u8,
    rest: Seq<u8>,
)
    requires
        call_ensures(extract_ids::<E, S, B>, (bytes, parse_single, parse_batch), r),
        bytes@ == space + seq![first] + rest,
        forall|i: int| 0 <= i < space.len() ==> white_space(#[trigger] space[i]),
        !white_space(first),
        forall|given: Result<Option<String>, E>| #[trigger]
            call_ensures(parse_single, (bytes,), given) ==> given == one,
        forall|given: Result<Vec<Option<String>>, E>| #[trigger]
            call_ensures(parse_batch, (bytes,), given) ==> given == all,
    ensures
        first == '[' as u8 ==> r == all,
        first == '{' as u8 && one is Ok ==> r is Ok && r->Ok_0@ == seq![one->Ok_0],
        first == '{' as u8 && one is Err ==> r == Err::<Vec<Option<String>>, E>(one->Err_0),
        first != '[' as u8 && first != '{' as u8 ==> r is Ok && r->Ok_0@.len() == 0,
{
    first_byte_tells_the_kind(space, first, rest);
}

/// What a response says is read off its body as it stands where it is not encoded, off the decoded
/// body where it is encoded with gzip, and not at all where it is encoded otherwise or cannot be
/// decoded.
pub proof fn response_is_read_as_it_is_encoded<
    E,
    S: FnOnce(&[u8]) -> Result<Option<i64>, E>,
    B: FnOnce(&[u8]) -> Result<Vec<ReplyEntry>, E>,
>(
    headers: HeaderMap<HeaderValue>,
    bytes: &[u8],
    parse_single: S,
    parse_batch: B,
    r: Reply,
    encoding: Seq<char>,
)
    requires
        call_ensures(
            inspect_response::<E, S, B>,
            (&headers, bytes, parse_single, parse_batch),
            r,
        ),
    ensures
        ({
            let contents = headers::header_contents(headers);
            let named = contents.contains_key("content-encoding"@)
                && contents["content-encoding"@].first() == vstd::utf8::encode_utf8(encoding);
            let decoded = gzip::gunzipped(bytes@, 67_108_864);
            &&& !contents.contains_key("content-encoding"@) ==> reading(
                bytes,
                parse_single,
                parse_batch,
                r,
            )
            &&& named && encoding == "identity"@ ==> reading(bytes, parse_single, parse_batch, r)
            &&& named && (encoding == "gzip"@ || encoding == "x-gzip"@) && decoded is Some
                ==> exists|plain: &[u8]|
                plain@ == decoded->Some_0 && #[trigger] reading(
                    plain,
                    parse_single,
                    parse_batch,
                    r,
                )
            &&& named && (encoding == "gzip"@ || encoding == "x-gzip"@) && decoded is None ==> r
                == Reply::Unread
            &&& named && encoding != "identity"@ && encoding != "gzip"@ && encoding != "x-gzip"@
                ==> r == Reply::Unread
        }),
{
    headers::encoding_is_the_one_named(headers::header_contents(headers), encoding);
    headers::encoding_is_the_one_named(headers::header_contents(headers), "identity"@);
    assert("identity"@ != "gzip"@ && "identity"@ != "x-gzip"@) by {
        reveal_strlit("identity");
        reveal_strlit("gzip");
        reveal_strlit("x-gzip");
        assert("identity"@.len() == 8 && "gzip"@.len() == 4 && "x-gzip"@.len() == 6);
    }
}

/// The label of an error is the class of its code, and a call without an error has none.
pub proof fn error_is_labelled_by_its_code(code: i64, r: Option<&'static str>, none: Option<&'static str>)
    requires
        call_ensures(error_label, (Some(code),), r),
        call_ensures(error_label, (None,), none),
    ensures
        none is None,
        r is Some,
        r->Some_0@ == "parse_error"@ <==> code == -32700,
        r->Some_0@ == "invalid_request"@ <==> code == -32600,
        r->Some_0@ == "method_not_found"@ <==> code == -32601,
        r->Some_0@ == "invalid_params"@ <==> code == -32602,
        r->Some_0@ == "internal_error"@ <==> code == -32603,
        r->Some_0@ == "server_error"@ <==> -32099 <= code <= -32000,
        r->Some_0@ == "execution_error"@ <==> code == 3,
{
    classes_part_the_codes(code);
}

/// The error with which a call is answered is that of the reply that alone names it, wherever it
/// stands among the replies and whatever the number of calls.
pub proof fn call_is_answered_by_the_reply_that_names_it(
    entries: Vec<ReplyEntry>,
    ids: &[Option<String>],
    call: usize,
    place: int,
    r: Option<i64>,
)
    requires
        call_ensures(Reply::error_code, (&Reply::Batch(entries), ids, call), r),
        call < ids@.len(),
        ids@[call as int] is Some,
        0 <= place < entries@.len(),
        entries@[place].id is Some,
        entries@[place].id->Some_0@ == ids@[call as int]->Some_0@,
        forall|k: int|
            0 <= k < entries@.len() && k != place && (#[trigger] entries@[k]).id is Some
                ==> entries@[k].id->Some_0@ != ids@[call as int]->Some_0@,
    ensures
        r == entries@[place].code,
{
    let named = id_texts(ids@);
    assert(named[call as int] == Some(ids@[call as int]->Some_0@));
    reply_is_matched_by_its_id(entries, named, call as int, place);
}

} // verus!
