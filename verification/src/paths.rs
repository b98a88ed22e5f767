//! Route prefixes, segments and the joining of paths.

use vstd::prelude::*;

use crate::errors::AppError;
use crate::text;
use crate::uri;

verus! {

/// Base path reserved for inbound JSON-RPC routes.
pub const DEFAULT_ROUTE_BASE_PATH: &'static str = "/gate";

/// A character that a route segment keeps as it is.
pub open spec fn segment_char(c: char) -> bool {
    ||| 'A' <= c <= 'Z'
    ||| 'a' <= c <= 'z'
    ||| '0' <= c <= '9'
    ||| c == '-'
    ||| c == '_'
}

/// A character that comes out as a dash: the dash itself, and what a segment cannot hold.
pub open spec fn dash_like(c: char) -> bool {
    c == '-' || !segment_char(c)
}

/// `name` with each run of dashes and of characters that a segment cannot hold replaced by one
/// dash.
pub open spec fn collapsed(name: Seq<char>) -> Seq<char>
    decreases name.len(),
{
    if name.len() == 0 {
        Seq::empty()
    } else {
        let head = collapsed(name.drop_last());
        if !dash_like(name.last()) {
            head.push(name.last())
        } else if head.len() > 0 && head.last() == '-' {
            head
        } else {
            head.push('-')
        }
    }
}

/// The route segment of a name: runs of dashes and foreign characters become one dash each, and
/// there is no dash at either end.
pub open spec fn segment_of(name: Seq<char>) -> Seq<char> {
    text::trim_start(text::trim_end(collapsed(name), '-'), '-')
}

/// The prefix under which the upstream of a name is mounted.
pub open spec fn gate_prefix(name: Seq<char>) -> Seq<char> {
    if segment_of(name).len() == 0 {
        DEFAULT_ROUTE_BASE_PATH@
    } else {
        DEFAULT_ROUTE_BASE_PATH@.push('/') + segment_of(name)
    }
}

/// `path` with a leading slash.
pub open spec fn rooted(path: Seq<char>) -> Seq<char> {
    if path.len() > 0 && path[0] == '/' {
        path
    } else {
        seq!['/'] + path
    }
}

/// A prefix with a leading slash and, unless it is the root, without slashes at its end.
pub open spec fn normalized_prefix(prefix: Seq<char>) -> Seq<char> {
    if rooted(prefix).len() > 1 {
        text::trim_end(rooted(prefix), '/')
    } else {
        rooted(prefix)
    }
}

/// The base path of a target: the root where the URL names none, else the path without slashes
/// at its end.
pub open spec fn normalized_base_path(path: Seq<char>) -> Seq<char> {
    if path.len() == 0 || path == seq!['/'] {
        seq!['/']
    } else {
        text::trim_end(path, '/')
    }
}

/// What every path below a prefix starts with.
pub open spec fn matcher_of(prefix: Seq<char>) -> Seq<char> {
    if prefix == seq!['/'] {
        seq!['/']
    } else {
        text::trim_end(prefix, '/').push('/')
    }
}

/// Whether a prefix covers a path: the root covers every path, another prefix covers itself and
/// the paths below it.
pub open spec fn covers(prefix: Seq<char>, path: Seq<char>) -> bool {
    ||| prefix == seq!['/']
    ||| path == prefix
    ||| matcher_of(prefix).is_prefix_of(path)
}

/// What is left of a path once the prefix is taken off.
pub open spec fn suffix_of(prefix: Seq<char>, path: Seq<char>) -> Seq<char> {
    if prefix == seq!['/'] {
        text::trim_start(path, '/')
    } else if prefix.is_prefix_of(path) {
        path.skip(prefix.len() as int)
    } else {
        path
    }
}

/// A base path continued by a suffix, with one slash between them. An empty suffix leaves the
/// base as it is.
pub open spec fn merged(base: Seq<char>, suffix: Seq<char>) -> Seq<char> {
    let start = if base.len() == 0 {
        seq!['/']
    } else {
        base
    };
    let head = text::trim_end(start, '/');
    let tail = text::trim_start(suffix, '/');
    if suffix.len() == 0 {
        start
    } else if head.len() == 0 {
        seq!['/'] + tail
    } else if tail.len() == 0 {
        head
    } else {
        head.push('/') + tail
    }
}

/// Normalises a route prefix; an empty one is refused.
pub fn normalize_prefix(prefix: &str) -> (r: Result<String, AppError>)
    ensures
        match r {
            Ok(p) => prefix@.len() > 0 && p@ == normalized_prefix(prefix@),
            Err(e) => prefix@.len() == 0 && e.is_config("route prefix cannot be empty"@),
        },
{
    if prefix.is_empty() {
        return Err(AppError::Config(String::from_str("route prefix cannot be empty")));
    }
    let v = text::chars_of(prefix);
    let mut normalized = String::new();
    let mut length: usize = v.len();
    if v[0] != '/' {
        normalized.push('/');
        assert(normalized@ =~= seq!['/']);
        length = if length < 2 {
            2
        } else {
            length
        };
    }
    normalized.append(prefix);
    assert(normalized@ =~= rooted(prefix@));
    if length > 1 {
        normalized = text::trim_end_char(normalized.as_str(), '/');
    }
    Ok(normalized)
}

/// Whether a segment keeps the character.
pub fn is_segment_char(c: char) -> (r: bool)
    ensures
        r == segment_char(c),
{
    ('A' <= c && c <= 'Z') || ('a' <= c && c <= 'z') || ('0' <= c && c <= '9') || c == '-' || c
        == '_'
}

/// Turns the name of an upstream into a route segment.
pub fn sanitize_route_segment(name: &str) -> (r: String)
    ensures
        r@ == segment_of(name@),
{
    let v = text::chars_of(name);
    let mut sanitized = String::new();
    let mut last_dash = false;
    let mut i: usize = 0;
    while i < v.len()
        invariant
            v@ == name@,
            i <= v@.len(),
            sanitized@ == collapsed(v@.take(i as int)),
            last_dash == (sanitized@.len() > 0 && sanitized@.last() == '-'),
        decreases v@.len() - i,
    {
        let ch = v[i];
        assert(v@.take(i + 1).drop_last() =~= v@.take(i as int));
        if ch != '-' && is_segment_char(ch) {
            sanitized.push(ch);
            last_dash = false;
        } else if !last_dash {
            sanitized.push('-');
            last_dash = true;
        }
        i += 1;
    }
    assert(v@.take(v@.len() as int) =~= v@);
    let head = text::trim_end_char(sanitized.as_str(), '-');
    text::trim_start_char(head.as_str(), '-')
}

/// The prefix under which the upstream of a name is mounted.
pub fn derive_gate_prefix(name: &str) -> (r: Result<String, AppError>)
    ensures
        r matches Ok(p) && p@ == gate_prefix(name@),
{
    let sanitized = sanitize_route_segment(name);
    let base = text::trim_end_char(DEFAULT_ROUTE_BASE_PATH, '/');
    proof {
        reveal_strlit("/gate");
        segment_holds_segment_chars(name@);
    }
    let mut combined = base;
    if !sanitized.as_str().is_empty() {
        combined.push('/');
        combined.append(sanitized.as_str());
    }
    assert(combined@.last() != '/');
    assert(combined@ == gate_prefix(name@));
    normalize_prefix(combined.as_str())
}

/// The base path of a target URL.
pub fn normalize_base_path(path: &str) -> (r: String)
    ensures
        r@ == normalized_base_path(path@),
{
    proof {
        reveal_strlit("/");
        assert("/"@ =~= seq!['/']);
    }
    if path.is_empty() || text::same_text(path, "/") {
        String::from_str("/")
    } else {
        text::trim_end_char(path, '/')
    }
}

/// What every path below a prefix starts with.
pub fn prefix_matcher(prefix: &str) -> (r: String)
    ensures
        r@ == matcher_of(prefix@),
{
    proof {
        reveal_strlit("/");
        assert("/"@ =~= seq!['/']);
    }
    if text::same_text(prefix, "/") {
        String::from_str("/")
    } else {
        let mut r = text::trim_end_char(prefix, '/');
        r.push('/');
        r
    }
}

/// Continues a base path by a suffix.
pub fn merge_paths(base: &str, suffix: &str) -> (r: String)
    ensures
        r@ == merged(base@, suffix@),
{
    proof {
        reveal_strlit("/");
        assert("/"@ =~= seq!['/']);
    }
    let base = if base.is_empty() {
        "/"
    } else {
        base
    };
    if suffix.is_empty() {
        return base.to_owned();
    }
    let mut merged = text::trim_end_char(base, '/');
    let tail = text::trim_start_char(suffix, '/');
    if merged.as_str().is_empty() || !tail.as_str().is_empty() {
        merged.push('/');
        assert(merged@.drop_last().len() == 0 ==> merged@ =~= seq!['/']);
        merged.append(tail.as_str());
    }
    merged
}

proof fn lemma_collapsed_holds_segment_chars(name: Seq<char>)
    ensures
        forall|i: int| 0 <= i < collapsed(name).len() ==> segment_char(#[trigger] collapsed(name)[i]),
    decreases name.len(),
{
    if name.len() > 0 {
        let head = collapsed(name.drop_last());
        lemma_collapsed_holds_segment_chars(name.drop_last());
        assert forall|i: int| 0 <= i < collapsed(name).len() implies segment_char(
            #[trigger] collapsed(name)[i],
        ) by {
            if i < head.len() {
                assert(collapsed(name)[i] == head[i]);
            }
        }
    }
}

/// A route segment holds letters, digits, dashes and underscores only, and no dash at either
/// end.
pub proof fn segment_holds_segment_chars(name: Seq<char>)
    ensures
        forall|i: int|
            0 <= i < segment_of(name).len() ==> segment_char(#[trigger] segment_of(name)[i]),
        segment_of(name).len() > 0 ==> segment_of(name).first() != '-' && segment_of(name).last()
            != '-',
{
    let whole = collapsed(name);
    let head = text::trim_end(whole, '-');
    lemma_collapsed_holds_segment_chars(name);
    text::trim_end_cuts_only_the_run(whole, '-');
    text::trim_start_cuts_only_the_run(head, '-');
    assert forall|i: int| 0 <= i < segment_of(name).len() implies segment_char(
        #[trigger] segment_of(name)[i],
    ) by {
        let j = i + (head.len() - segment_of(name).len());
        assert(segment_of(name)[i] == head[j]);
        assert(head[j] == whole[j]);
    }
}

/// Continuing an absolute or empty base path gives an absolute path.
pub proof fn merged_is_absolute(base: Seq<char>, suffix: Seq<char>)
    requires
        base.len() > 0 ==> base[0] == '/',
    ensures
        merged(base, suffix).len() > 0,
        merged(base, suffix)[0] == '/',
{
    let start = if base.len() == 0 {
        seq!['/']
    } else {
        base
    };
    text::trim_end_cuts_only_the_run(start, '/');
}

/// Joining paths brings in no character that neither of them holds, but for the slash.
pub proof fn merged_keeps_path_text(base: Seq<char>, suffix: Seq<char>)
    requires
        uri::path_text(base),
        uri::path_text(suffix),
    ensures
        uri::path_text(merged(base, suffix)),
{
    let start = if base.len() == 0 {
        seq!['/']
    } else {
        base
    };
    let head = text::trim_end(start, '/');
    let tail = text::trim_start(suffix, '/');
    text::trim_end_cuts_only_the_run(start, '/');
    text::trim_start_cuts_only_the_run(suffix, '/');
    assert forall|i: int| 0 <= i < head.len() implies uri::path_char(#[trigger] head[i]) by {
        assert(head[i] == start[i]);
    }
    assert forall|i: int| 0 <= i < tail.len() implies uri::path_char(#[trigger] tail[i]) by {
        assert(tail[i] == suffix[i + (suffix.len() - tail.len())]);
    }
}

/// Two dashes in a row.
pub open spec fn double_dash_at(s: Seq<char>, i: int) -> bool {
    0 <= i && i + 1 < s.len() && s[i] == '-' && s[i + 1] == '-'
}

/// A route segment never holds two dashes in a row: spaces and punctuation collapse, whatever
/// dashes stand among them.
pub proof fn segment_holds_no_double_dash(name: Seq<char>)
    ensures
        forall|i: int| !#[trigger] double_dash_at(segment_of(name), i),
{
    let whole = collapsed(name);
    let head = text::trim_end(whole, '-');
    lemma_collapsed_holds_no_double_dash(name);
    text::trim_end_cuts_only_the_run(whole, '-');
    text::trim_start_cuts_only_the_run(head, '-');
    assert forall|i: int| !#[trigger] double_dash_at(segment_of(name), i) by {
        let skipped = head.len() - segment_of(name).len();
        if double_dash_at(segment_of(name), i) {
            assert(segment_of(name)[i] == head[i + skipped]);
            assert(segment_of(name)[i + 1] == head[i + 1 + skipped]);
            assert(head[i + skipped] == whole[i + skipped]);
            assert(head[i + 1 + skipped] == whole[i + 1 + skipped]);
            assert(double_dash_at(whole, i + skipped));
        }
    }
}

proof fn lemma_collapsed_holds_no_double_dash(name: Seq<char>)
    ensures
        forall|i: int| !#[trigger] double_dash_at(collapsed(name), i),
    decreases name.len(),
{
    if name.len() > 0 {
        let head = collapsed(name.drop_last());
        lemma_collapsed_holds_no_double_dash(name.drop_last());
        assert forall|i: int| !#[trigger] double_dash_at(collapsed(name), i) by {
            assert(!double_dash_at(head, i));
            if i + 1 < head.len() && 0 <= i {
                assert(collapsed(name)[i] == head[i] && collapsed(name)[i + 1] == head[i + 1]);
            }
        }
    }
}

/// A name of letters, digits, dashes and underscores, with no two dashes in a row and none at
/// either end, is its own route segment.
pub proof fn plain_name_is_its_segment(name: Seq<char>)
    requires
        forall|i: int| 0 <= i < name.len() ==> segment_char(#[trigger] name[i]),
        forall|i: int| !#[trigger] double_dash_at(name, i),
        name.len() > 0 ==> name.first() != '-' && name.last() != '-',
    ensures
        segment_of(name) == name,
{
    lemma_collapsed_plain(name);
}

proof fn lemma_collapsed_plain(name: Seq<char>)
    requires
        forall|i: int| 0 <= i < name.len() ==> segment_char(#[trigger] name[i]),
        forall|i: int| !#[trigger] double_dash_at(name, i),
    ensures
        collapsed(name) == name,
    decreases name.len(),
{
    if name.len() > 0 {
        let head = name.drop_last();
        assert forall|i: int| 0 <= i < head.len() implies segment_char(#[trigger] head[i]) by {
            assert(head[i] == name[i]);
        }
        assert forall|i: int| !#[trigger] double_dash_at(head, i) by {
            assert(!double_dash_at(name, i));
        }
        lemma_collapsed_plain(head);
        assert(!double_dash_at(name, name.len() - 2));
        assert(head.push(name.last()) =~= name);
    } else {
        assert(collapsed(name) =~= name);
    }
}

/// Sanitising a route segment again changes nothing.
pub proof fn segment_is_its_own_segment(name: Seq<char>)
    ensures
        segment_of(segment_of(name)) == segment_of(name),
{
    segment_holds_segment_chars(name);
    segment_holds_no_double_dash(name);
    plain_name_is_its_segment(segment_of(name));
}

/// Dashes and foreign characters at the ends of a name, such as white space, do not count.
pub proof fn foreign_ends_do_not_count(before: Seq<char>, name: Seq<char>, after: Seq<char>)
    requires
        forall|i: int| 0 <= i < before.len() ==> dash_like(#[trigger] before[i]),
        forall|i: int| 0 <= i < after.len() ==> dash_like(#[trigger] after[i]),
    ensures
        segment_of(before + name + after) == segment_of(name),
{
    lemma_foreign_tail(before + name, after);
    lemma_foreign_head(before, name);
    let whole = collapsed(name);
    if before.len() > 0 && collapsed(before + name) == seq!['-'] + whole {
        lemma_trim_behind_dash(whole);
    }
}

proof fn lemma_foreign_tail(name: Seq<char>, after: Seq<char>)
    requires
        forall|i: int| 0 <= i < after.len() ==> dash_like(#[trigger] after[i]),
    ensures
        text::trim_end(collapsed(name + after), '-') == text::trim_end(collapsed(name), '-'),
    decreases after.len(),
{
    if after.len() > 0 {
        let rest = after.drop_last();
        assert forall|i: int| 0 <= i < rest.len() implies dash_like(#[trigger] rest[i]) by {
            assert(rest[i] == after[i]);
        }
        lemma_foreign_tail(name, rest);
        assert((name + after).drop_last() =~= name + rest);
        assert((name + after).last() == after.last());
        assert(collapsed(name + rest).push('-').drop_last() =~= collapsed(name + rest));
    } else {
        assert(name + after =~= name);
    }
}

proof fn lemma_foreign_head(before: Seq<char>, name: Seq<char>)
    requires
        forall|i: int| 0 <= i < before.len() ==> dash_like(#[trigger] before[i]),
    ensures
        before.len() > 0 ==> collapsed(before + name) == if name.len() > 0 && dash_like(
            name.first(),
        ) {
            collapsed(name)
        } else {
            seq!['-'] + collapsed(name)
        },
        before.len() == 0 ==> collapsed(before + name) == collapsed(name),
    decreases name.len(),
{
    if before.len() == 0 {
        assert(before + name =~= name);
    } else if name.len() > 0 {
        let head = name.drop_last();
        lemma_foreign_head(before, head);
        assert((before + name).drop_last() =~= before + head);
        assert((before + name).last() == name.last());
        if head.len() > 0 {
            assert(head.first() == name.first());
            lemma_collapsed_of_some(head);
        } else {
            assert(collapsed(head) =~= Seq::empty());
            assert(name.first() == name.last());
        }
        assert(collapsed(before + name) =~= if dash_like(name.first()) {
            collapsed(name)
        } else {
            seq!['-'] + collapsed(name)
        });
    } else {
        assert(before + name =~= before);
        lemma_all_foreign(before);
        assert(collapsed(name) =~= Seq::empty());
        assert(seq!['-'] + collapsed(name) =~= seq!['-']);
    }
}

proof fn lemma_collapsed_of_some(name: Seq<char>)
    requires
        name.len() > 0,
    ensures
        collapsed(name).len() > 0,
{
}

proof fn lemma_all_foreign(name: Seq<char>)
    requires
        name.len() > 0,
        forall|i: int| 0 <= i < name.len() ==> dash_like(#[trigger] name[i]),
    ensures
        collapsed(name) == seq!['-'],
    decreases name.len(),
{
    let head = name.drop_last();
    if head.len() > 0 {
        assert forall|i: int| 0 <= i < head.len() implies dash_like(#[trigger] head[i]) by {
            assert(head[i] == name[i]);
        }
        lemma_all_foreign(head);
    } else {
        assert(collapsed(head) =~= Seq::empty());
        assert(collapsed(name) =~= seq!['-']);
    }
}

proof fn lemma_trim_behind_dash(s: Seq<char>)
    ensures
        text::trim_start(text::trim_end(seq!['-'] + s, '-'), '-') == text::trim_start(
            text::trim_end(s, '-'),
            '-',
        ),
    decreases s.len(),
{
    let dashed = seq!['-'] + s;
    if s.len() == 0 {
        assert(dashed.drop_last() =~= s);
    } else if s.last() == '-' {
        lemma_trim_behind_dash(s.drop_last());
        assert(dashed.drop_last() =~= seq!['-'] + s.drop_last());
    } else {
        assert(dashed.drop_first() =~= s);
    }
}

/// The prefix of every upstream starts with the reserved base path and has no slash at its end,
/// and what lies below it goes on with a slash.
pub proof fn gate_prefix_lies_under_the_base_path(name: Seq<char>)
    ensures
        DEFAULT_ROUTE_BASE_PATH@.is_prefix_of(gate_prefix(name)),
        gate_prefix(name).last() != '/',
        matcher_of(gate_prefix(name)) == gate_prefix(name).push('/'),
{
    reveal_strlit("/gate");
    segment_holds_segment_chars(name);
    let prefix = gate_prefix(name);
    assert(DEFAULT_ROUTE_BASE_PATH@ =~= prefix.subrange(0, 5));
    assert(prefix != seq!['/']) by {
        assert(prefix.len() >= 5);
    }
}

/// A prefix without a slash at its end covers exactly itself and the paths that go on with a slash
/// behind it, and such a path is the prefix followed by what is left of it.
pub proof fn prefix_covers_itself_and_what_lies_below(prefix: Seq<char>, path: Seq<char>)
    requires
        prefix.len() > 0,
        prefix.last() != '/',
    ensures
        covers(prefix, path) <==> path == prefix || prefix.push('/').is_prefix_of(path),
        covers(prefix, path) ==> path == prefix + suffix_of(prefix, path),
        covers(prefix, path) ==> suffix_of(prefix, path).len() == 0 || suffix_of(prefix, path)[0]
            == '/',
{
    assert(prefix != seq!['/']) by {
        assert(seq!['/'].last() == '/');
    }
    if path == prefix {
        assert(prefix =~= path.subrange(0, prefix.len() as int));
        assert(path =~= prefix + suffix_of(prefix, path));
    } else if prefix.push('/').is_prefix_of(path) {
        let head = prefix.push('/');
        assert forall|i: int| 0 <= i < prefix.len() implies prefix[i] == path[i] by {
            assert(head[i] == path.subrange(0, head.len() as int)[i]);
        }
        assert(head[prefix.len() as int] == path.subrange(0, head.len() as int)[prefix.len() as int]);
        assert(prefix =~= path.subrange(0, prefix.len() as int));
        assert(path =~= prefix + suffix_of(prefix, path));
    }
}

/// A route segment keeps the letters of the Latin alphabet, the digits, the dash and the
/// underscore, and nothing else.
pub proof fn segment_alphabet(c: char)
    ensures
        segment_char(c)
            <==> "ABCDEFGHIJKLMNOPQRSTUVWXYZabcdefghijklmnopqrstuvwxyz0123456789-_"@.contains(c),
        dash_like(c) <==> c == '-'
            || !"ABCDEFGHIJKLMNOPQRSTUVWXYZabcdefghijklmnopqrstuvwxyz0123456789-_"@.contains(c),
{
    reveal_strlit("ABCDEFGHIJKLMNOPQRSTUVWXYZabcdefghijklmnopqrstuvwxyz0123456789-_");
    let kept = "ABCDEFGHIJKLMNOPQRSTUVWXYZabcdefghijklmnopqrstuvwxyz0123456789-_"@;
    if segment_char(c) {
        let place = if 'A' <= c <= 'Z' {
            c as int - 'A' as int
        } else if 'a' <= c <= 'z' {
            26 + (c as int - 'a' as int)
        } else if '0' <= c <= '9' {
            52 + (c as int - '0' as int)
        } else if c == '-' {
            62
        } else {
            63
        };
        assert(kept[place] == c);
    }
    if kept.contains(c) {
        let place = choose|i: int| 0 <= i < kept.len() && kept[i] == c;
        assert(segment_char(kept[place]));
    }
}

/// An upstream is mounted at the reserved base path, a slash and the whole segment of its name;
/// one whose name leaves no segment is mounted at the base path itself.
pub proof fn whole_segment_is_mounted(name: Seq<char>)
    ensures
        segment_of(name).len() > 0 ==> gate_prefix(name) == "/gate/"@ + segment_of(name),
        segment_of(name).len() == 0 ==> gate_prefix(name) == "/gate"@,
{
    reveal_strlit("/gate");
    reveal_strlit("/gate/");
    assert("/gate"@.push('/') =~= "/gate/"@);
}

/// An upstream whose name is made of letters, digits, underscores and single dashes inside is
/// mounted at the reserved base path, a slash and exactly that name.
pub proof fn plain_name_is_mounted_in_full(name: Seq<char>)
    requires
        name.len() > 0,
        forall|i: int|
            0 <= i < name.len()
                ==> "ABCDEFGHIJKLMNOPQRSTUVWXYZabcdefghijklmnopqrstuvwxyz0123456789-_"@.contains(
                #[trigger] name[i],
            ),
        forall|i: int|
            0 <= i < name.len() - 1 && #[trigger] name[i] == '-' ==> name[i + 1] != '-',
        name.first() != '-',
        name.last() != '-',
    ensures
        gate_prefix(name) == "/gate/"@ + name,
{
    assert forall|i: int| 0 <= i < name.len() implies segment_char(#[trigger] name[i]) by {
        segment_alphabet(name[i]);
    }
    plain_name_is_its_segment(name);
    whole_segment_is_mounted(name);
}

/// Names with different segments are mounted at different prefixes.
pub proof fn different_segments_are_mounted_apart(one: Seq<char>, other: Seq<char>)
    ensures
        gate_prefix(one) == gate_prefix(other) <==> segment_of(one) == segment_of(other),
{
    whole_segment_is_mounted(one);
    whole_segment_is_mounted(other);
    reveal_strlit("/gate");
    reveal_strlit("/gate/");
    if gate_prefix(one) == gate_prefix(other) {
        if segment_of(one).len() == 0 {
            assert(gate_prefix(one).len() == 5);
            assert(segment_of(one) =~= segment_of(other));
        } else {
            assert(gate_prefix(one).len() == 6 + segment_of(one).len());
            assert forall|i: int| 0 <= i < segment_of(one).len() implies segment_of(one)[i]
                == segment_of(other)[i] by {
                assert(gate_prefix(one)[6 + i] == gate_prefix(other)[6 + i]);
            }
            assert(segment_of(one) =~= segment_of(other));
        }
    }
}

proof fn lemma_collapsed_behind_dash(before: Seq<char>, name: Seq<char>)
    requires
        before.len() > 0,
        dash_like(before.last()),
    ensures
        collapsed(before + name) == collapsed(before) + if name.len() > 0 && dash_like(
            name.first(),
        ) {
            collapsed(name).drop_first()
        } else {
            collapsed(name)
        },
        name.len() > 0 ==> (collapsed(name).len() > 0 && (collapsed(name).first() == '-'
            <==> dash_like(name.first()))),
    decreases name.len(),
{
    if name.len() > 0 {
        let head = name.drop_last();
        lemma_collapsed_behind_dash(before, head);
        assert((before + name).drop_last() =~= before + head);
        assert((before + name).last() == name.last());
        if head.len() > 0 {
            assert(head.first() == name.first());
            assert(collapsed(name).first() == collapsed(head).first());
            let tail = if dash_like(name.first()) {
                collapsed(head).drop_first()
            } else {
                collapsed(head)
            };
            if tail.len() > 0 {
                assert((collapsed(before) + tail).last() == collapsed(head).last());
            } else {
                assert(collapsed(head).len() == 1);
                assert(collapsed(before) + tail =~= collapsed(before));
            }
        } else {
            assert(collapsed(head) =~= Seq::empty());
            assert(before + head =~= before);
            assert(name.first() == name.last());
        }
        assert(collapsed(before + name) =~= collapsed(before) + if dash_like(name.first()) {
            collapsed(name).drop_first()
        } else {
            collapsed(name)
        });
    } else {
        assert(before + name =~= before);
        assert(collapsed(name) =~= Seq::empty());
        assert(collapsed(before) + collapsed(name) =~= collapsed(before));
    }
}

/// Dashes and foreign characters in the middle of a name come out as one dash between the
/// segments of what stands on either side.
pub proof fn foreign_middle_comes_out_as_one_dash(
    before: Seq<char>,
    between: Seq<char>,
    after: Seq<char>,
)
    requires
        between.len() > 0,
        forall|i: int| 0 <= i < between.len() ==> dash_like(#[trigger] between[i]),
        segment_of(before).len() > 0,
        segment_of(after).len() > 0,
    ensures
        segment_of(before + between + after) == segment_of(before) + seq!['-'] + segment_of(after),
{
    let start = before + between;
    let e = text::trim_end(collapsed(before), '-');
    assert(start.last() == between.last());
    assert(dash_like(start.last()));
    lemma_foreign_tail(before, between);
    text::trim_end_cuts_only_the_run(collapsed(start), '-');
    text::trim_end_splits(collapsed(start), '-');
    lemma_collapsed_holds_no_double_dash(start);
    assert(collapsed(start).last() == '-');
    assert(!double_dash_at(collapsed(start), e.len() as int));
    assert(collapsed(start) =~= e + seq!['-']);
    lemma_collapsed_behind_dash(start, after);
    let c = collapsed(after);
    let d = if after.len() > 0 && dash_like(after.first()) {
        c.drop_first()
    } else {
        c
    };
    assert(after.len() > 0) by {
        if after.len() == 0 {
            assert(c =~= Seq::empty());
        }
    }
    lemma_collapsed_holds_no_double_dash(after);
    assert(!double_dash_at(c, 0));
    assert(d.len() > 0) by {
        if d.len() == 0 {
            assert(c =~= seq!['-']);
            assert(c.drop_last() =~= Seq::empty());
            assert(text::trim_end(c, '-') =~= Seq::empty()) by {
                reveal_with_fuel(text::trim_end, 2);
            }
        }
    }
    assert(d.first() != '-');
    let t = text::trim_end(d, '-');
    text::trim_end_cuts_only_the_run(d, '-');
    text::trim_end_splits(d, '-');
    let cut = (d.len() - t.len()) as nat;
    assert(t.len() > 0) by {
        if t.len() == 0 {
            assert(d[0] == '-');
        }
    }
    assert(t.first() == d.first());
    let lead: nat = if dash_like(after.first()) {
        1
    } else {
        0
    };
    assert(c =~= text::run_of('-', lead) + d);
    assert(text::run_of('-', lead) + (t + text::run_of('-', cut)) =~= (text::run_of('-', lead) + t)
        + text::run_of('-', cut));
    assert((text::run_of('-', lead) + t).last() == t.last());
    text::trim_end_takes_the_run_back(text::run_of('-', lead) + t, '-', cut);
    text::trim_start_takes_the_run_back(t, '-', lead);
    assert(segment_of(after) == t);
    let whole = collapsed(before + between + after);
    assert(whole =~= (e + seq!['-'] + t) + text::run_of('-', cut));
    assert((e + seq!['-'] + t).last() == t.last());
    text::trim_end_takes_the_run_back(e + seq!['-'] + t, '-', cut);
    let s = segment_of(before);
    text::trim_start_cuts_only_the_run(e, '-');
    text::trim_start_splits(e, '-');
    let skipped = (e.len() - s.len()) as nat;
    assert(e + seq!['-'] + t =~= text::run_of('-', skipped) + (s + seq!['-'] + t));
    assert((s + seq!['-'] + t).first() == s.first());
    text::trim_start_takes_the_run_back(s + seq!['-'] + t, '-', skipped);
}

/// A name made of nothing but dashes and foreign characters has no segment.
pub proof fn foreign_name_has_no_segment(name: Seq<char>)
    requires
        forall|i: int| 0 <= i < name.len() ==> dash_like(#[trigger] name[i]),
    ensures
        segment_of(name).len() == 0,
{
    foreign_ends_do_not_count(name, Seq::empty(), Seq::empty());
    assert(name + Seq::<char>::empty() + Seq::<char>::empty() =~= name);
    plain_name_is_its_segment(Seq::empty());
}

/// A prefix is given a leading slash where it has none and loses the slashes at its end; one made
/// of slashes alone is the root where it is a single slash.
pub proof fn prefix_is_rooted_and_trimmed(body: Seq<char>, slashes: nat)
    requires
        body.len() > 0 ==> body.last() != '/',
    ensures
        body.len() > 0 && body[0] == '/' ==> normalized_prefix(body + text::run_of('/', slashes))
            == body,
        body.len() > 0 && body[0] != '/' ==> normalized_prefix(body + text::run_of('/', slashes))
            == seq!['/'] + body,
        body.len() == 0 && slashes <= 1 ==> normalized_prefix(body + text::run_of('/', slashes))
            == "/"@,
        body.len() == 0 && slashes > 1 ==> normalized_prefix(body + text::run_of('/', slashes))
            == ""@,
{
    reveal_strlit("/");
    reveal_strlit("");
    let given = body + text::run_of('/', slashes);
    if body.len() > 0 {
        assert(given[0] == body[0]);
        if body[0] == '/' {
            assert(body.len() > 1);
            text::trim_end_takes_the_run_back(body, '/', slashes);
        } else {
            assert(rooted(given) =~= (seq!['/'] + body) + text::run_of('/', slashes));
            assert((seq!['/'] + body).last() == body.last());
            text::trim_end_takes_the_run_back(seq!['/'] + body, '/', slashes);
        }
    } else if slashes == 0 {
        assert(rooted(given) =~= "/"@);
    } else {
        assert(given[0] == '/');
        if slashes == 1 {
            assert(given =~= "/"@);
        } else {
            text::trim_end_takes_the_run_back(body, '/', slashes);
            assert(body =~= ""@);
        }
    }
}

/// The base path of a target is the path of its URL without the slashes at its end, and the root
/// where the URL names no path or a single slash.
pub proof fn base_path_is_the_trimmed_path(body: Seq<char>, slashes: nat)
    requires
        body.len() > 0 ==> body.last() != '/',
    ensures
        body.len() > 0 ==> normalized_base_path(body + text::run_of('/', slashes)) == body,
        body.len() == 0 && slashes <= 1 ==> normalized_base_path(
            body + text::run_of('/', slashes),
        ) == "/"@,
        body.len() == 0 && slashes > 1 ==> normalized_base_path(body + text::run_of('/', slashes))
            == ""@,
{
    reveal_strlit("/");
    reveal_strlit("");
    assert("/"@ =~= seq!['/']);
    let given = body + text::run_of('/', slashes);
    text::trim_end_takes_the_run_back(body, '/', slashes);
    if body.len() > 0 {
        assert(given[0] == body[0]);
        if given == seq!['/'] {
            assert(body =~= given);
        }
    } else if slashes == 1 {
        assert(given =~= seq!['/']);
    } else if slashes > 1 {
        assert(given.len() > 1);
        assert(body =~= ""@);
    }
}

/// What lies below a prefix starts with the prefix and a single slash, however many slashes the
/// prefix ends in.
pub proof fn matcher_ends_in_one_slash(body: Seq<char>, slashes: nat)
    requires
        body.len() > 0 ==> body.last() != '/',
    ensures
        matcher_of(body + text::run_of('/', slashes)) == body + "/"@,
{
    reveal_strlit("/");
    assert("/"@ =~= seq!['/']);
    let given = body + text::run_of('/', slashes);
    text::trim_end_takes_the_run_back(body, '/', slashes);
    if given == seq!['/'] {
        assert(body.len() == 0) by {
            if body.len() > 0 {
                assert(given[0] == body[0]);
            }
        }
    }
    assert(body.push('/') =~= body + "/"@);
}

/// A prefix other than the root, whatever slashes it ends in, covers exactly itself and the paths
/// that go on with a slash behind what stands before those slashes.
pub proof fn prefix_covers_what_lies_below(body: Seq<char>, slashes: nat, path: Seq<char>)
    requires
        body.len() > 0 ==> body.last() != '/',
        body.len() > 0 || slashes != 1,
    ensures
        covers(body + text::run_of('/', slashes), path) <==> path == body + text::run_of(
            '/',
            slashes,
        ) || (body + "/"@).is_prefix_of(path),
{
    matcher_ends_in_one_slash(body, slashes);
    let given = body + text::run_of('/', slashes);
    assert(given.len() == body.len() + slashes);
    if given == seq!['/'] && body.len() > 0 {
        assert(given[0] == body[0]);
    }
}

/// The root covers every path, and takes from it no more than the slashes it starts with.
pub proof fn root_covers_every_path(slashes: nat, rest: Seq<char>)
    requires
        rest.len() > 0 ==> rest[0] != '/',
    ensures
        covers("/"@, text::run_of('/', slashes) + rest),
        suffix_of("/"@, text::run_of('/', slashes) + rest) == rest,
{
    reveal_strlit("/");
    assert("/"@ =~= seq!['/']);
    text::trim_start_takes_the_run_back(rest, '/', slashes);
}

/// Taking a prefix other than the root off a path that starts with it leaves all that stands
/// behind it, and a path that does not start with it stays as it is.
pub proof fn prefix_is_taken_off_once(prefix: Seq<char>, path: Seq<char>)
    requires
        prefix != "/"@,
    ensures
        suffix_of(prefix, prefix + path) == path,
        !prefix.is_prefix_of(path) ==> suffix_of(prefix, path) == path,
{
    reveal_strlit("/");
    assert("/"@ =~= seq!['/']);
    let whole = prefix + path;
    assert(prefix =~= whole.subrange(0, prefix.len() as int));
    assert(suffix_of(prefix, whole) =~= path);
}

/// A base path continued by nothing stays as it is, and is the root where it was empty.
pub proof fn empty_suffix_keeps_the_base(base: Seq<char>)
    ensures
        base.len() > 0 ==> merged(base, Seq::empty()) == base,
        base.len() == 0 ==> merged(base, Seq::empty()) == "/"@,
{
    reveal_strlit("/");
    assert("/"@ =~= seq!['/']);
}

/// A base path continued by a suffix is the one and the other with a single slash between them,
/// however many slashes the base ends in and the suffix starts with. Where the suffix is made of
/// slashes alone, none is left at the end of the base.
pub proof fn paths_join_with_one_slash(
    base: Seq<char>,
    base_slashes: nat,
    suffix_slashes: nat,
    suffix: Seq<char>,
)
    requires
        base.len() > 0 ==> base.last() != '/',
        suffix.len() > 0 ==> suffix[0] != '/',
        suffix_slashes + suffix.len() > 0,
    ensures
        ({
            let joined = merged(
                base + text::run_of('/', base_slashes),
                text::run_of('/', suffix_slashes) + suffix,
            );
            &&& base.len() == 0 || suffix.len() > 0 ==> joined == base + "/"@ + suffix
            &&& base.len() > 0 && suffix.len() == 0 ==> joined == base
        }),
{
    reveal_strlit("/");
    assert("/"@ =~= seq!['/']);
    let given = base + text::run_of('/', base_slashes);
    text::trim_end_takes_the_run_back(base, '/', base_slashes);
    text::trim_start_takes_the_run_back(suffix, '/', suffix_slashes);
    assert((text::run_of('/', suffix_slashes) + suffix).len() == suffix_slashes + suffix.len());
    if given.len() == 0 {
        text::trim_end_takes_the_run_back(base, '/', 1);
        assert(base + text::run_of('/', 1) =~= seq!['/']);
    }
    assert(base.push('/') + suffix =~= base + "/"@ + suffix);
    if base.len() == 0 {
        assert(seq!['/'] + suffix =~= base + "/"@ + suffix);
    }
}

/// Joining a base path with nothing gives the base path back.
pub proof fn joining_with_nothing_gives_the_base_back(base: &str, suffix: &str, r: String)
    requires
        call_ensures(merge_paths, (base, suffix), r),
        suffix@.len() == 0,
        base@.len() > 0,
    ensures
        r@ == base@,
{
}

/// Joining a base path with a suffix gives the one and the other with a single slash between
/// them, whatever slashes the base ends in and the suffix starts with.
pub proof fn joining_puts_one_slash_between(
    base: &str,
    suffix: &str,
    r: String,
    head: Seq<char>,
    head_slashes: nat,
    tail_slashes: nat,
    tail: Seq<char>,
)
    requires
        call_ensures(merge_paths, (base, suffix), r),
        base@ == head + text::run_of('/', head_slashes),
        suffix@ == text::run_of('/', tail_slashes) + tail,
        head.len() > 0 ==> head.last() != '/',
        tail.len() > 0,
        tail[0] != '/',
    ensures
        r@ == head + "/"@ + tail,
{
    paths_join_with_one_slash(head, head_slashes, tail_slashes, tail);
}

/// Every name can be mounted. One that leaves a segment is mounted at the reserved base path and
/// that segment, and one made of letters, digits, underscores and single dashes inside at exactly
/// the name.
pub proof fn name_is_mounted_under_itself(name: &str, r: Result<String, AppError>)
    requires
        call_ensures(derive_gate_prefix, (name,), r),
    ensures
        r is Ok,
        segment_of(name@).len() == 0 ==> r->Ok_0@ == "/gate"@,
        segment_of(name@).len() > 0 ==> r->Ok_0@ == "/gate/"@ + segment_of(name@),
        ({
            &&& name@.len() > 0
            &&& forall|i: int| 0 <= i < name@.len() ==> segment_char(#[trigger] name@[i])
            &&& forall|i: int| !#[trigger] double_dash_at(name@, i)
            &&& name@.first() != '-'
            &&& name@.last() != '-'
        }) ==> r->Ok_0@ == "/gate/"@ + name@,
{
    whole_segment_is_mounted(name@);
    if (forall|i: int| 0 <= i < name@.len() ==> segment_char(#[trigger] name@[i])) && (forall|i: int|
        !#[trigger] double_dash_at(name@, i)) && name@.len() > 0 && name@.first() != '-'
        && name@.last() != '-' {
        plain_name_is_its_segment(name@);
    }
}

} // verus!
