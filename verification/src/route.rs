//! Routes: a path prefix, the upstream targets behind it, and whose turn it is.

use std::sync::Arc;
use std::time::Duration;
use vstd::arithmetic::div_mod;
use vstd::prelude::*;
use vstd::utf8;

use crate::errors::AppError;
use crate::paths;
use crate::text;
use crate::uri;
use crate::uri::{Uri, UriView};

verus! {

/// The span of time that `Duration::from_millis` makes of a number of milliseconds.
pub uninterp spec fn duration_of_millis(millis: u64) -> Duration;

/// `Duration::from_millis`: the span of time is determined by the number.
pub assume_specification[ Duration::from_millis ](millis: u64) -> (d: Duration)
    ensures
        d == duration_of_millis(millis),
;

/// `Arc::<str>::from`: the shared text is the text of the string.
#[verifier::external_body]
pub(crate) fn shared_text(s: String) -> (r: Arc<str>)
    ensures
        r@ == s@,
{
    Arc::from(s)
}

/// How a route picks among its targets.
#[derive(Debug, Clone, Copy, PartialEq, Eq)]
pub enum RoutingStrategy {
    /// One after the other, starting over after the last.
    RoundRobin,
}

/// One upstream address of a route.
#[derive(Debug)]
pub struct Target {
    pub scheme: String,
    pub authority: String,
    pub base_path: String,
}

/// The text of each part of a [`Target`].
#[verifier::ext_equal]
pub struct TargetView {
    pub scheme: Seq<char>,
    pub authority: Seq<char>,
    pub base_path: Seq<char>,
}

impl View for Target {
    type V = TargetView;

    open spec fn view(&self) -> TargetView {
        TargetView {
            scheme: self.scheme@,
            authority: self.authority@,
            base_path: self.base_path@,
        }
    }
}

impl TargetView {
    /// A target that requests can be sent to: an origin on which URIs can be built, and a base
    /// path that is empty or absolute.
    pub open spec fn valid(self) -> bool {
        &&& uri::accepted_origin(self.scheme, self.authority)
        &&& uri::graphic_text(self.authority)
        &&& uri::path_text(self.base_path)
        &&& self.base_path.len() > 0 ==> self.base_path[0] == '/'
    }
}

impl Clone for Target {
    fn clone(&self) -> (r: Target)
        ensures
            r@ == self@,
    {
        Target {
            scheme: self.scheme.clone(),
            authority: self.authority.clone(),
            base_path: self.base_path.clone(),
        }
    }
}

/// A path-prefix rule that sends requests on to its targets in turn.
///
/// The turn belongs to the one route: there is no way to copy it.
#[derive(Debug)]
pub struct Route {
    name: Arc<str>,
    prefix: String,
    prefix_match: String,
    strategy: RoutingStrategy,
    targets: Vec<Target>,
    cursor: usize,
    timeout: Duration,
    max_body_bytes: usize,
}

/// What a [`Route`] is made of.
#[verifier::ext_equal]
pub struct RouteView {
    pub name: Seq<char>,
    pub prefix: Seq<char>,
    pub strategy: RoutingStrategy,
    pub targets: Seq<TargetView>,
    /// How many requests the route has been asked to prepare, modulo the range of `usize`.
    pub cursor: usize,
    pub timeout: Duration,
    pub max_body_bytes: usize,
}

/// The views of a list of targets.
pub open spec fn target_views(targets: Seq<Target>) -> Seq<TargetView> {
    targets.map_values(|t: Target| t@)
}

impl View for Route {
    type V = RouteView;

    closed spec fn view(&self) -> RouteView {
        RouteView {
            name: self.name@,
            prefix: self.prefix@,
            strategy: self.strategy,
            targets: target_views(self.targets@),
            cursor: self.cursor,
            timeout: self.timeout,
            max_body_bytes: self.max_body_bytes,
        }
    }
}

impl RouteView {
    /// A route that can serve: it has targets, and each of them can be sent to.
    pub open spec fn valid(self) -> bool {
        &&& self.targets.len() > 0
        &&& forall|i: int| 0 <= i < self.targets.len() ==> (#[trigger] self.targets[i]).valid()
    }

    /// The target for the given turn.
    pub open spec fn target_for(self, turn: nat) -> TargetView {
        self.targets[(turn % self.targets.len()) as int]
    }

    /// The route once the current turn has been taken.
    pub open spec fn advanced(self) -> RouteView {
        RouteView { cursor: self.cursor.wrapping_add(1), ..self }
    }

    /// The position of the target whose turn it is.
    pub open spec fn turn_index(self) -> int {
        self.cursor as int % self.targets.len() as int
    }

    /// The route once a number of turns have been taken.
    pub open spec fn after_turns(self, turns: nat) -> RouteView
        decreases turns,
    {
        if turns == 0 {
            self
        } else {
            self.after_turns((turns - 1) as nat).advanced()
        }
    }

    /// Whether the route is eligible for a request path.
    pub open spec fn covers(self, path: Seq<char>) -> bool {
        paths::covers(self.prefix, path)
    }

    /// The path that the current target is asked for in place of `path`.
    pub open spec fn forwarded_path(self, path: Seq<char>) -> Seq<char> {
        paths::merged(
            self.target_for(self.cursor as nat).base_path,
            paths::suffix_of(self.prefix, path),
        )
    }

    /// The path and query that the current target is asked for.
    pub open spec fn forwarded(self, original: UriView) -> Seq<char> {
        uri::joined_path_and_query(self.forwarded_path(original.path), original.query)
    }

    /// A request whose path and query need no encoding and whose rewritten path and query are
    /// not too long for a URI.
    pub open spec fn can_forward(self, original: UriView) -> bool {
        &&& uri::path_text(original.path)
        &&& original.query matches Some(q) ==> uri::query_text(q)
        &&& utf8::encode_utf8(self.forwarded(original)).len() <= uri::MAX_PATH_AND_QUERY_BYTES
    }

    /// The route with its first target, as one line of text.
    pub open spec fn summary_text(self) -> Seq<char> {
        self.prefix + " => "@ + self.targets[0].authority + self.targets[0].base_path
    }
}

/// Result of preparing a request for an upstream target.
#[derive(Debug)]
pub struct PreparedUpstream {
    pub uri: Uri,
    pub authority: String,
}

impl Route {
    #[verifier::type_invariant]
    spec fn well_formed(self) -> bool {
        &&& self@.valid()
        &&& self.prefix_match@ == paths::matcher_of(self.prefix@)
    }

    /// A route whose first request goes to the first target; one without targets is refused.
    pub fn new(
        name: Arc<str>,
        prefix: String,
        strategy: RoutingStrategy,
        targets: Vec<Target>,
        timeout: Duration,
        max_body_bytes: usize,
    ) -> (r: Result<Route, AppError>)
        requires
            forall|i: int| 0 <= i < targets@.len() ==> (#[trigger] targets@[i])@.valid(),
        ensures
            match r {
                Ok(route) => targets@.len() > 0 && route@ == (RouteView {
                    name: name@,
                    prefix: prefix@,
                    strategy,
                    targets: target_views(targets@),
                    cursor: 0,
                    timeout,
                    max_body_bytes,
                }),
                Err(e) => targets@.len() == 0 && e.is_config(
                    "upstream '"@ + name@ + "' must configure at least one url"@,
                ),
            },
    {
        if targets.is_empty() {
            let mut reason = String::from_str("upstream '");
            reason.append(&*name);
            reason.append("' must configure at least one url");
            return Err(AppError::Config(reason));
        }
        let prefix_match = paths::prefix_matcher(prefix.as_str());
        proof {
            assert forall|i: int| 0 <= i < targets@.len() implies (#[trigger] target_views(
                targets@,
            )[i]).valid() by {
                assert(targets@[i]@.valid());
            }
        }
        Ok(
            Route {
                name,
                prefix,
                prefix_match,
                strategy,
                targets,
                cursor: 0,
                timeout,
                max_body_bytes,
            },
        )
    }

    /// Name of the route for logging and metrics.
    pub fn name(&self) -> (r: &str)
        ensures
            r@ == self@.name,
    {
        &*self.name
    }

    /// Shared reference to the route name.
    pub fn name_arc(&self) -> (r: Arc<str>)
        ensures
            r@ == self@.name,
    {
        self.name.clone()
    }

    /// Length of the route's prefix in bytes.
    pub fn prefix_len(&self) -> (r: usize)
        ensures
            r == utf8::encode_utf8(self@.prefix).len(),
    {
        self.prefix.as_str().as_bytes().len()
    }

    /// Determine whether the request path is eligible for this route.
    pub fn matches(&self, path: &str) -> (r: bool)
        ensures
            r == self@.covers(path@),
    {
        proof {
            use_type_invariant(self);
            reveal_strlit("/");
            assert("/"@ =~= seq!['/']);
        }
        if text::same_text(self.prefix.as_str(), "/") {
            return true;
        }
        text::same_text(path, self.prefix.as_str()) || text::has_prefix(
            path,
            self.prefix_match.as_str(),
        )
    }

    /// Configured request timeout for this route.
    pub fn timeout(&self) -> (r: Duration)
        ensures
            r == self@.timeout,
    {
        self.timeout
    }

    /// Maximum allowed request body size for this route.
    pub fn max_body_bytes(&self) -> (r: usize)
        ensures
            r == self@.max_body_bytes,
    {
        self.max_body_bytes
    }

    /// Prepare the upstream URI and authority for a given inbound request URI. It takes the
    /// current turn, whatever comes of it.
    pub fn prepare_upstream(&mut self, original: &Uri) -> (r: Result<PreparedUpstream, String>)
        ensures
            final(self)@ == old(self)@.advanced(),
            ({
                let target = old(self)@.target_for(old(self)@.cursor as nat);
                let text = old(self)@.forwarded(original@);
                match r {
                    Ok(prepared) => {
                        &&& uri::build_refusal(target.scheme, target.authority, text) is None
                        &&& prepared.authority@ == target.authority
                        &&& uri::graphic_text(prepared.authority@)
                        &&& prepared.uri@ == (UriView {
                            scheme: Some(target.scheme),
                            authority: Some(target.authority),
                            path: uri::named_path(text),
                            query: uri::named_query(text),
                        })
                    },
                    Err(reason) => uri::build_refusal(target.scheme, target.authority, text)
                        == Some(reason@),
                }
            }),
            old(self)@.can_forward(original@) ==> {
                &&& r is Ok
                &&& r->Ok_0.uri@.path == old(self)@.forwarded_path(original@.path)
                &&& r->Ok_0.uri@.query == original@.query
            },
    {
        let suffix = self.strip_prefix(original.path.as_str());
        let target = self.next_target();
        let mut path_and_query = paths::merge_paths(target.base_path.as_str(), suffix.as_str());
        let ghost path = path_and_query@;
        if let Some(query) = &original.query {
            path_and_query.push('?');
            path_and_query.append(query.as_str());
        }
        proof {
            assert(path_and_query@ == old(self)@.forwarded(original@));
            if old(self)@.can_forward(original@) {
                forwarded_path_is_absolute(old(self)@, original@.path);
                uri::joined_parts_come_back(path, original@.query);
            }
        }
        match uri::build_uri(target.scheme.as_str(), target.authority.as_str(), path_and_query) {
            Ok(built) => Ok(PreparedUpstream { uri: built, authority: target.authority }),
            Err(reason) => Err(reason),
        }
    }

    /// What is left of a request path below the prefix.
    pub fn strip_prefix(&self, path: &str) -> (r: String)
        ensures
            r@ == paths::suffix_of(self@.prefix, path@),
    {
        proof {
            reveal_strlit("/");
            assert("/"@ =~= seq!['/']);
        }
        if text::same_text(self.prefix.as_str(), "/") {
            return text::trim_start_char(path, '/');
        }
        if text::has_prefix(path, self.prefix.as_str()) {
            let taken = text::chars_of(self.prefix.as_str());
            text::text_after(path, taken.len())
        } else {
            path.to_owned()
        }
    }

    /// The target whose turn it is; the next call gets the one after it.
    pub fn next_target(&mut self) -> (r: Target)
        ensures
            r@ == old(self)@.target_for(old(self)@.cursor as nat),
            r@.valid(),
            old(self)@.valid(),
            final(self)@ == old(self)@.advanced(),
    {
        proof {
            use_type_invariant(&*self);
        }
        match self.strategy {
            RoutingStrategy::RoundRobin => {
                let turn: usize = self.cursor;
                self.cursor = turn.wrapping_add(1);
                let index: usize = turn % self.targets.len();
                assert(self@.targets[index as int].valid());
                self.targets[index].clone()
            },
        }
    }

    /// Produce a short human-readable summary of the route and its primary target.
    pub fn summary(&self) -> (r: String)
        ensures
            r@ == self@.summary_text(),
    {
        proof {
            use_type_invariant(self);
        }
        let mut r = self.prefix.clone();
        r.append(" => ");
        r.append(self.targets[0].authority.as_str());
        r.append(self.targets[0].base_path.as_str());
        r
    }
}

/// What a valid route asks its target for is an absolute path, and it holds nothing that would
/// have to be encoded unless the request path did.
pub proof fn forwarded_path_is_absolute(route: RouteView, path: Seq<char>)
    requires
        route.valid(),
    ensures
        route.forwarded_path(path).len() > 0,
        route.forwarded_path(path)[0] == '/',
        uri::path_text(path) ==> uri::path_text(route.forwarded_path(path)),
{
    let target = route.target_for(route.cursor as nat);
    assert(target.valid());
    let suffix = paths::suffix_of(route.prefix, path);
    text::trim_start_cuts_only_the_run(path, '/');
    if uri::path_text(path) {
        let skipped = path.len() - suffix.len();
        assert(suffix =~= path.skip(skipped));
        assert forall|i: int| 0 <= i < suffix.len() implies uri::path_char(#[trigger] suffix[i]) by {
            assert(suffix[i] == path[i + skipped]);
        }
    }
    paths::merged_is_absolute(target.base_path, suffix);
    if uri::path_text(path) {
        paths::merged_keeps_path_text(target.base_path, suffix);
    }
}

/// A request for something below the prefix of a route goes to the same thing below the base path
/// of the target whose turn it is.
pub proof fn what_lies_below_the_prefix_is_asked_below_the_base_path(
    route: RouteView,
    rest: Seq<char>,
)
    requires
        route.prefix.len() > 0,
        route.prefix.last() != '/',
        rest.len() > 0,
        rest[0] != '/',
    ensures
        ({
            let path = route.prefix.push('/') + rest;
            let base = text::trim_end(route.target_for(route.cursor as nat).base_path, '/');
            &&& route.covers(path)
            &&& route.forwarded_path(path) == base.push('/') + rest
        }),
{
    let path = route.prefix.push('/') + rest;
    let base = route.target_for(route.cursor as nat).base_path;
    let suffix = seq!['/'] + rest;
    paths::prefix_covers_itself_and_what_lies_below(route.prefix, path);
    assert(route.prefix.push('/') =~= path.subrange(0, route.prefix.push('/').len() as int));
    assert(path =~= route.prefix + suffix);
    assert(route.prefix =~= path.subrange(0, route.prefix.len() as int));
    assert(paths::suffix_of(route.prefix, path) =~= suffix);
    assert(suffix.drop_first() =~= rest);
    reveal_with_fuel(text::trim_start, 2);
    assert(text::trim_start(suffix, '/') == rest);
    let start = if base.len() == 0 {
        seq!['/']
    } else {
        base
    };
    if base.len() == 0 {
        reveal_with_fuel(text::trim_end, 2);
        assert(start.drop_last() =~= base);
    }
    let head = text::trim_end(start, '/');
    assert(head == text::trim_end(base, '/'));
    if head.len() == 0 {
        assert(head.push('/') =~= seq!['/']);
    }
}

/// Taking turns moves the cursor by one each, as long as it stays in range, and changes nothing
/// else.
pub proof fn turns_move_the_cursor(route: RouteView, turns: nat)
    requires
        route.cursor + turns <= usize::MAX,
    ensures
        route.after_turns(turns) == (RouteView { cursor: (route.cursor + turns) as usize, ..route }),
    decreases turns,
{
    if turns > 0 {
        turns_move_the_cursor(route, (turns - 1) as nat);
    }
}

/// Round robin: among as many turns in a row as a route has targets, each target has exactly one,
/// and then the first of them comes again. The turns are those before the cursor starts over at
/// the end of its range.
pub proof fn each_target_has_one_turn_per_round(route: RouteView, target: int)
    requires
        route.valid(),
        0 <= target < route.targets.len(),
        route.cursor + route.targets.len() <= usize::MAX,
    ensures
        exists|turn: nat|
            turn < route.targets.len() && #[trigger] route.after_turns(turn).turn_index() == target,
        forall|first: nat, second: nat|
            first < second < route.targets.len() ==> #[trigger] route.after_turns(
                first,
            ).turn_index() != #[trigger] route.after_turns(second).turn_index(),
        route.after_turns(route.targets.len()).turn_index() == route.turn_index(),
{
    let n = route.targets.len() as int;
    let c = route.cursor as int;
    let q = c / n;
    let r = c % n;
    div_mod::lemma_fundamental_div_mod(c, n);
    assert(c == q * n + r) by (nonlinear_arith)
        requires
            c == n * q + r,
    ;
    let turn = if target >= r {
        (target - r) as nat
    } else {
        (n - r + target) as nat
    };
    let rounds = if target >= r {
        q
    } else {
        q + 1
    };
    assert(c + turn == rounds * n + target) by (nonlinear_arith)
        requires
            c == q * n + r,
            (target >= r && turn == target - r && rounds == q) || (target < r && turn == n - r
                + target && rounds == q + 1),
    ;
    div_mod::lemma_fundamental_div_mod_converse(c + turn, n, rounds, target);
    turns_move_the_cursor(route, turn);
    assert(route.after_turns(turn).turn_index() == target);
    assert forall|first: nat, second: nat| first < second < route.targets.len() implies #[trigger] route.after_turns(
        first,
    ).turn_index() != #[trigger] route.after_turns(second).turn_index() by {
        turns_move_the_cursor(route, first);
        turns_move_the_cursor(route, second);
        let a = c + first;
        let b = c + second;
        div_mod::lemma_fundamental_div_mod(a, n);
        div_mod::lemma_fundamental_div_mod(b, n);
        let qa = a / n;
        let qb = b / n;
        if a % n == b % n {
            assert(false) by (nonlinear_arith)
                requires
                    a == n * qa + a % n,
                    b == n * qb + b % n,
                    a % n == b % n,
                    0 < b - a < n,
            ;
        }
    }
    turns_move_the_cursor(route, route.targets.len());
    assert(c + n == (q + 1) * n + r) by (nonlinear_arith)
        requires
            c == q * n + r,
    ;
    div_mod::lemma_fundamental_div_mod_converse(c + n, n, q + 1, r);
}

/// In every round the turns go through the list of targets in its order, from the first to the
/// last.
pub proof fn turns_go_through_the_list(route: RouteView, round: nat, place: nat)
    requires
        place < route.targets.len(),
    ensures
        route.target_for(round * route.targets.len() + place) == route.targets[place as int],
{
    let n = route.targets.len() as int;
    assert(round * n + place >= 0) by (nonlinear_arith)
        requires
            round >= 0,
            n >= 0,
            place >= 0,
    ;
    div_mod::lemma_fundamental_div_mod_converse(
        round * n + place,
        n,
        round as int,
        place as int,
    );
}

/// The target whose turn it is stands in the list at the place that the turn has come to.
pub proof fn turn_picks_the_target_at_its_place(route: RouteView)
    requires
        route.valid(),
    ensures
        0 <= route.turn_index() < route.targets.len(),
        route.target_for(route.cursor as nat) == route.targets[route.turn_index()],
        (route.cursor - route.turn_index()) % (route.targets.len() as int) == 0,
{
    let n = route.targets.len() as int;
    let c = route.cursor as int;
    div_mod::lemma_mod_bound(c, n);
    div_mod::lemma_fundamental_div_mod(c, n);
    turns_go_through_the_list(route, (c / n) as nat, (c % n) as nat);
    assert(c == (c / n) * n + c % n) by (nonlinear_arith)
        requires
            c == n * (c / n) + c % n,
    ;
    div_mod::lemma_fundamental_div_mod_converse(c - c % n, n, c / n, 0);
}

/// The requests to a new route go to its targets one after the other, in the order of the list
/// and from the first, and start over behind the last.
pub proof fn requests_go_to_the_targets_in_order(route: RouteView, request: nat)
    requires
        route.valid(),
        route.cursor == 0,
        request <= usize::MAX,
    ensures
        ({
            let then = route.after_turns(request);
            &&& request < route.targets.len() ==> then.target_for(then.cursor as nat)
                == route.targets[request as int]
            &&& request >= route.targets.len() ==> then.target_for(then.cursor as nat) == ({
                let earlier = route.after_turns((request - route.targets.len()) as nat);
                earlier.target_for(earlier.cursor as nat)
            })
        }),
{
    let n = route.targets.len() as int;
    turns_move_the_cursor(route, request);
    let then = route.after_turns(request);
    if request < n {
        assert(0nat * route.targets.len() + request == request);
        turns_go_through_the_list(then, 0, request);
    } else {
        let before = (request - n) as nat;
        turns_move_the_cursor(route, before);
        div_mod::lemma_mod_add_multiples_vanish(before as int, n);
        assert(request as int == n + before as int);
    }
}

/// Among as many requests in a row as a route has targets, from whatever turn on, the one at each
/// place of the list is handed out exactly once: the `k`-th of them gets the target `k` places
/// behind the first one, going round the list. The turns are those before the cursor starts over
/// at the end of its range.
pub proof fn requests_in_a_row_share_out_the_list(route: RouteView, k: nat)
    requires
        route.valid(),
        k < route.targets.len(),
        route.cursor + k <= usize::MAX,
    ensures
        ({
            let n = route.targets.len() as int;
            let first = route.turn_index();
            let then = route.after_turns(k);
            &&& first + k < n ==> then.target_for(then.cursor as nat) == route.targets[first + k]
            &&& first + k >= n ==> then.target_for(then.cursor as nat) == route.targets[first + k
                - n]
        }),
{
    let n = route.targets.len() as int;
    let c = route.cursor as int;
    let first = route.turn_index();
    let then = route.after_turns(k);
    turns_move_the_cursor(route, k);
    div_mod::lemma_mod_bound(c, n);
    div_mod::lemma_fundamental_div_mod(c, n);
    let q = c / n;
    assert(q >= 0) by (nonlinear_arith)
        requires
            c == n * q + first,
            c >= 0,
            first < n,
            n > 0,
    ;
    if first + k < n {
        assert(c + k == q * n + (first + k)) by (nonlinear_arith)
            requires
                c == n * q + first,
        ;
        turns_go_through_the_list(then, q as nat, (first + k) as nat);
    } else {
        assert(c + k == (q + 1) * n + (first + k - n)) by (nonlinear_arith)
            requires
                c == n * q + first,
        ;
        turns_go_through_the_list(then, (q + 1) as nat, (first + k - n) as nat);
    }
}

/// A turn moves the cursor to the next number, and from the last number of its range back to
/// zero; nothing else of the route changes.
pub proof fn turn_moves_the_cursor_by_one(route: RouteView)
    ensures
        route.cursor < usize::MAX ==> route.advanced().cursor == route.cursor + 1,
        route.cursor == usize::MAX ==> route.advanced().cursor == 0,
        route.advanced().name == route.name,
        route.advanced().prefix == route.prefix,
        route.advanced().strategy == route.strategy,
        route.advanced().targets == route.targets,
        route.advanced().timeout == route.timeout,
        route.advanced().max_body_bytes == route.max_body_bytes,
{
}

/// A request for exactly the prefix of a route is one for exactly the base path of the target
/// whose turn it is, and for its root where that base path is empty.
pub proof fn prefix_itself_is_asked_at_the_base_path(route: RouteView, round: nat, place: nat)
    requires
        route.prefix != "/"@,
        place < route.targets.len(),
        route.cursor == round * route.targets.len() + place,
    ensures
        route.covers(route.prefix),
        route.targets[place as int].base_path.len() > 0 ==> route.forwarded_path(route.prefix)
            == route.targets[place as int].base_path,
        route.targets[place as int].base_path.len() == 0 ==> route.forwarded_path(route.prefix)
            == "/"@,
{
    turns_go_through_the_list(route, round, place);
    paths::prefix_is_taken_off_once(route.prefix, Seq::empty());
    assert(route.prefix + Seq::<char>::empty() =~= route.prefix);
    paths::empty_suffix_keeps_the_base(route.targets[place as int].base_path);
}

/// A path below a prefix, with whatever slashes behind the prefix, is asked for below the base
/// path of the target whose turn it is, with whatever slashes that ends in: the one and the other
/// with a single slash between them.
pub proof fn path_below_the_prefix_is_asked_below_the_base_path(
    route: RouteView,
    round: nat,
    place: nat,
    base: Seq<char>,
    base_slashes: nat,
    slashes: nat,
    rest: Seq<char>,
)
    requires
        route.prefix != "/"@,
        place < route.targets.len(),
        route.cursor == round * route.targets.len() + place,
        route.targets[place as int].base_path == base + text::run_of('/', base_slashes),
        base.len() > 0 ==> base.last() != '/',
        rest.len() > 0 ==> rest[0] != '/',
        slashes + rest.len() > 0,
    ensures
        ({
            let path = route.prefix + text::run_of('/', slashes) + rest;
            &&& base.len() == 0 || rest.len() > 0 ==> route.forwarded_path(path) == base + "/"@
                + rest
            &&& base.len() > 0 && rest.len() == 0 ==> route.forwarded_path(path) == base
        }),
{
    turns_go_through_the_list(route, round, place);
    let suffix = text::run_of('/', slashes) + rest;
    assert(route.prefix + text::run_of('/', slashes) + rest =~= route.prefix + suffix);
    paths::prefix_is_taken_off_once(route.prefix, suffix);
    paths::paths_join_with_one_slash(base, base_slashes, slashes, rest);
}

/// A route at the root covers every path and asks for it below the base path of the target whose
/// turn it is; what holds nothing but slashes is asked at the base path itself.
pub proof fn root_route_asks_below_the_base_path(
    route: RouteView,
    round: nat,
    place: nat,
    base: Seq<char>,
    base_slashes: nat,
    slashes: nat,
    rest: Seq<char>,
)
    requires
        route.prefix == "/"@,
        place < route.targets.len(),
        route.cursor == round * route.targets.len() + place,
        route.targets[place as int].base_path == base + text::run_of('/', base_slashes),
        base.len() > 0 ==> base.last() != '/',
        rest.len() > 0 ==> rest[0] != '/',
    ensures
        ({
            let path = text::run_of('/', slashes) + rest;
            let whole = base + text::run_of('/', base_slashes);
            &&& route.covers(path)
            &&& rest.len() > 0 ==> route.forwarded_path(path) == base + "/"@ + rest
            &&& rest.len() == 0 && whole.len() > 0 ==> route.forwarded_path(path) == whole
            &&& rest.len() == 0 && whole.len() == 0 ==> route.forwarded_path(path) == "/"@
        }),
{
    turns_go_through_the_list(route, round, place);
    paths::root_covers_every_path(slashes, rest);
    if rest.len() > 0 {
        paths::paths_join_with_one_slash(base, base_slashes, 0, rest);
        assert(text::run_of('/', 0) + rest =~= rest);
    } else {
        assert(rest =~= Seq::empty());
        paths::empty_suffix_keeps_the_base(base + text::run_of('/', base_slashes));
    }
}

/// A route with a prefix that does not end in a slash is eligible for exactly the prefix and the
/// paths that go on with a slash behind it.
pub proof fn route_covers_its_prefix_and_what_lies_below(route: RouteView, path: Seq<char>)
    requires
        route.prefix.len() > 0,
        route.prefix.last() != '/',
    ensures
        route.covers(path) <==> path == route.prefix || (route.prefix + "/"@).is_prefix_of(path),
{
    paths::prefix_covers_what_lies_below(route.prefix, 0, path);
    assert(route.prefix + text::run_of('/', 0) =~= route.prefix);
}

/// The query of a request is kept as it is behind the path that the target is asked for.
pub proof fn query_is_kept(route: RouteView, original: UriView)
    ensures
        original.query is None ==> route.forwarded(original) == route.forwarded_path(original.path),
        original.query is Some ==> route.forwarded(original) == route.forwarded_path(original.path)
            + "?"@ + original.query->Some_0,
{
    reveal_strlit("?");
    assert("?"@ =~= seq!['?']);
    if original.query is Some {
        assert(route.forwarded(original) =~= route.forwarded_path(original.path) + "?"@
            + original.query->Some_0);
    }
}

/// The summary of a route names its prefix, and the authority and the base path of the first of
/// its targets.
pub proof fn summary_names_prefix_and_first_target(route: RouteView)
    requires
        route.targets.len() > 0,
    ensures
        route.summary_text() == route.prefix + (" => "@ + (route.targets.first().authority
            + route.targets.first().base_path)),
{
    reveal_strlit(" => ");
}

/// The views of a list of targets are as many as the targets, each at its place and part by part
/// the text of that target.
pub proof fn target_views_keep_every_target(targets: Seq<Target>)
    ensures
        target_views(targets).len() == targets.len(),
        forall|i: int|
            0 <= i < targets.len() ==> (#[trigger] target_views(targets)[i]).scheme
                == targets[i].scheme@ && target_views(targets)[i].authority
                == targets[i].authority@ && target_views(targets)[i].base_path
                == targets[i].base_path@,
{
}

/// A new route has what it was made of, and starts with the first of its targets. It is refused
/// exactly if it has no target.
pub proof fn new_route_has_what_it_was_made_of(
    name: Arc<str>,
    prefix: String,
    strategy: RoutingStrategy,
    targets: Vec<Target>,
    timeout: Duration,
    max_body_bytes: usize,
    r: Result<Route, AppError>,
)
    requires
        call_ensures(
            Route::new,
            (name, prefix, strategy, targets, timeout, max_body_bytes),
            r,
        ),
    ensures
        r is Ok <==> targets@.len() > 0,
        r is Ok ==> {
            let route = r->Ok_0@;
            &&& route.name == name@
            &&& route.prefix == prefix@
            &&& route.timeout == timeout
            &&& route.max_body_bytes == max_body_bytes
            &&& route.cursor == 0
            &&& route.targets.len() == targets@.len()
            &&& forall|i: int|
                0 <= i < targets@.len() ==> #[trigger] route.targets[i] == targets@[i]@
        },
        r is Err ==> r->Err_0.is_config(
            "upstream '"@ + name@ + "' must configure at least one url"@,
        ),
{
}

/// What a route says of its limits and its name is what it has.
pub proof fn route_says_what_it_has(
    route: Route,
    timeout: Duration,
    max_body_bytes: usize,
    name: &str,
    length: usize,
)
    requires
        call_ensures(Route::timeout, (&route,), timeout),
        call_ensures(Route::max_body_bytes, (&route,), max_body_bytes),
        call_ensures(Route::name, (&route,), name),
        call_ensures(Route::prefix_len, (&route,), length),
    ensures
        timeout == route@.timeout,
        max_body_bytes == route@.max_body_bytes,
        name@ == route@.name,
        length == utf8::encode_utf8(route@.prefix).len(),
{
}

/// A route with a prefix that does not end in a slash matches exactly the prefix and the paths
/// that go on with a slash behind it; one at the root matches every path.
pub proof fn route_matches_what_lies_below_its_prefix(route: Route, path: &str, r: bool)
    requires
        call_ensures(Route::matches, (&route, path), r),
    ensures
        route@.prefix.len() > 0 && route@.prefix.last() != '/' ==> (r <==> path@ == route@.prefix
            || (route@.prefix + "/"@).is_prefix_of(path@)),
        route@.prefix == "/"@ ==> r,
{
    reveal_strlit("/");
    assert("/"@ =~= seq!['/']);
    if route@.prefix.len() > 0 && route@.prefix.last() != '/' {
        route_covers_its_prefix_and_what_lies_below(route@, path@);
    }
}

/// The target that is handed out stands in the list at the place that the turn has come to, and
/// the next turn is that of the place behind it. Nothing else of the route changes.
pub proof fn target_of_the_turn_is_handed_out(
    route: &mut Route,
    target: Target,
    round: nat,
    place: nat,
)
    requires
        call_ensures(Route::next_target, (route,), target),
        place < old(route)@.targets.len(),
        old(route)@.cursor == round * old(route)@.targets.len() + place,
    ensures
        target@ == old(route)@.targets[place as int],
        old(route)@.cursor < usize::MAX ==> final(route)@.cursor == old(route)@.cursor + 1,
        old(route)@.cursor == usize::MAX ==> final(route)@.cursor == 0,
        final(route)@.targets == old(route)@.targets,
        final(route)@.prefix == old(route)@.prefix,
        final(route)@.timeout == old(route)@.timeout,
        final(route)@.max_body_bytes == old(route)@.max_body_bytes,
        final(route)@.name == old(route)@.name,
{
    turns_go_through_the_list(old(route)@, round, place);
}

/// A request that needs no encoding is prepared for the target whose turn it is: with its scheme
/// and authority, the path that it is asked for, and the query as it came. It takes the turn.
pub proof fn request_is_prepared_for_the_target_of_the_turn(
    route: &mut Route,
    original: Uri,
    r: Result<PreparedUpstream, String>,
    round: nat,
    place: nat,
)
    requires
        call_ensures(Route::prepare_upstream, (route, &original), r),
        place < old(route)@.targets.len(),
        old(route)@.cursor == round * old(route)@.targets.len() + place,
        uri::path_text(original@.path),
        original@.query matches Some(q) ==> uri::query_text(q),
        utf8::encode_utf8(old(route)@.forwarded(original@)).len() <= 65_534,
    ensures
        ({
            let target = old(route)@.targets[place as int];
            &&& r is Ok
            &&& r->Ok_0.authority@ == target.authority
            &&& r->Ok_0.uri@.scheme == Some(target.scheme)
            &&& r->Ok_0.uri@.authority == Some(target.authority)
            &&& r->Ok_0.uri@.path == old(route)@.forwarded_path(original@.path)
            &&& r->Ok_0.uri@.query == original@.query
        }),
        final(route)@ == old(route)@.advanced(),
{
    turns_go_through_the_list(old(route)@, round, place);
}

/// A request for exactly the prefix of a route is prepared for exactly the base path of the
/// target whose turn it is.
pub proof fn request_for_the_prefix_is_prepared_for_the_base_path(
    route: &mut Route,
    original: Uri,
    r: Result<PreparedUpstream, String>,
    round: nat,
    place: nat,
)
    requires
        call_ensures(Route::prepare_upstream, (route, &original), r),
        place < old(route)@.targets.len(),
        old(route)@.cursor == round * old(route)@.targets.len() + place,
        old(route)@.prefix != "/"@,
        original@.path == old(route)@.prefix,
        uri::path_text(original@.path),
        original@.query matches Some(q) ==> uri::query_text(q),
        utf8::encode_utf8(old(route)@.forwarded(original@)).len() <= 65_534,
    ensures
        r is Ok,
        old(route)@.targets[place as int].base_path.len() > 0 ==> r->Ok_0.uri@.path
            == old(route)@.targets[place as int].base_path,
        old(route)@.targets[place as int].base_path.len() == 0 ==> r->Ok_0.uri@.path == "/"@,
        r->Ok_0.uri@.query == original@.query,
{
    prefix_itself_is_asked_at_the_base_path(old(route)@, round, place);
}

/// The summary line of a route names its prefix and its first target.
pub proof fn summary_line_names_prefix_and_first_target(route: Route, line: String)
    requires
        call_ensures(Route::summary, (&route,), line),
    ensures
        line@ == route@.prefix + " => "@ + route@.targets[0].authority
            + route@.targets[0].base_path,
{
}

} // verus!
