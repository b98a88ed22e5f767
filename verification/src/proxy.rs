//! The course of a proxied request: from its route to what its client is answered.

use axum::http::{HeaderMap, HeaderValue};
use std::sync::Arc;
use std::time::Duration;
use vstd::prelude::*;
use vstd::utf8;

use crate::body::BodyCollectError;
use crate::config;
use crate::config::UpstreamConfig;
use crate::errors::ProxyError;
use crate::headers;
use crate::metrics;
use crate::metrics::{Metrics, MetricsReply, MetricsView};
use crate::paths;
use crate::route;
use crate::route::{PreparedUpstream, Route, RouteView};
use crate::rpc;
use crate::rpc::Reply;
use crate::text;
use crate::uri;
use crate::uri::{Uri, UriView};

verus! {

/// The routes of the proxy and what it keeps count of.
pub struct AppState {
    routes: Vec<Route>,
    metrics: Metrics,
}

/// What an [`AppState`] holds.
#[verifier::ext_equal]
pub struct AppStateView {
    pub routes: Seq<RouteView>,
    pub metrics: MetricsView,
}

impl View for AppState {
    type V = AppStateView;

    closed spec fn view(&self) -> AppStateView {
        AppStateView { routes: config::route_views(self.routes@), metrics: self.metrics@ }
    }
}

/// The position of the first route that covers a path.
pub open spec fn first_match(routes: Seq<RouteView>, path: Seq<char>) -> Option<int>
    decreases routes.len(),
{
    if routes.len() == 0 {
        None
    } else if routes.first().covers(path) {
        Some(0)
    } else {
        match first_match(routes.drop_first(), path) {
            Some(i) => Some(i + 1),
            None => None,
        }
    }
}

/// A request that a route has taken on.
pub struct Admission {
    upstream: Arc<str>,
    method: String,
    timeout: Duration,
    max_body_bytes: usize,
    prepared: PreparedUpstream,
    original_host: Option<HeaderValue>,
    inferred_proto: String,
}

/// What is known of an [`Admission`].
#[verifier::ext_equal]
pub struct AdmissionView {
    /// The name of the route.
    pub upstream: Seq<char>,
    /// The HTTP method of the request.
    pub method: Seq<char>,
    pub timeout: Duration,
    pub max_body_bytes: usize,
    /// Where the request goes.
    pub target: UriView,
    /// The host that the request is addressed to.
    pub authority: Seq<char>,
    /// The host that the request was addressed to.
    pub original_host: Option<Seq<u8>>,
    /// The protocol by which the request reached the proxy.
    pub inferred_proto: Seq<char>,
}

impl View for Admission {
    type V = AdmissionView;

    closed spec fn view(&self) -> AdmissionView {
        AdmissionView {
            upstream: self.upstream@,
            method: self.method@,
            timeout: self.timeout,
            max_body_bytes: self.max_body_bytes,
            target: self.prepared.uri@,
            authority: self.prepared.authority@,
            original_host: headers::bytes_of_option(self.original_host),
            inferred_proto: self.inferred_proto@,
        }
    }
}

impl Admission {
    #[verifier::type_invariant]
    spec fn well_formed(self) -> bool {
        uri::graphic_text(self.prepared.authority@)
    }

    /// Where the request goes.
    pub fn target(&self) -> (r: &Uri)
        ensures
            r@ == self@.target,
    {
        &self.prepared.uri
    }

    /// How long the upstream may take to answer.
    pub fn timeout(&self) -> (r: Duration)
        ensures
            r == self@.timeout,
    {
        self.timeout
    }

    /// How many bytes the body of the request may have.
    pub fn max_body_bytes(&self) -> (r: usize)
        ensures
            r == self@.max_body_bytes,
    {
        self.max_body_bytes
    }
}

/// Why a request that a route has taken on comes to nothing.
#[derive(Debug, PartialEq, Eq)]
pub enum Failure {
    /// Its body could not be collected.
    Body(BodyCollectError),
    /// The exchange with the upstream failed for a reason.
    Upstream(String),
    /// The upstream did not answer in time.
    Timeout,
}

/// What a route makes of a request that it takes on.
pub open spec fn admission_of(
    route: RouteView,
    method: Seq<char>,
    target: UriView,
    contents: Map<Seq<char>, Seq<Seq<u8>>>,
) -> AdmissionView {
    let upstream = route.target_for(route.cursor as nat);
    AdmissionView {
        upstream: route.name,
        method,
        timeout: route.timeout,
        max_body_bytes: route.max_body_bytes,
        target: UriView {
            scheme: Some(upstream.scheme),
            authority: Some(upstream.authority),
            path: uri::named_path(route.forwarded(target)),
            query: uri::named_query(route.forwarded(target)),
        },
        authority: upstream.authority,
        original_host: headers::first_value(contents, "host"@),
        inferred_proto: headers::request_proto(contents, target),
    }
}

/// What becomes of the state and of a request when it comes in. The first route that covers its
/// path takes it on, and takes its turn; it fails at once where no route covers the path, or where
/// the rewritten URI is none.
pub open spec fn admission_outcome(
    before: AppStateView,
    method: Seq<char>,
    target: UriView,
    contents: Map<Seq<char>, Seq<Seq<u8>>>,
    after: AppStateView,
    r: Result<Admission, ProxyError>,
) -> bool {
    match first_match(before.routes, target.path) {
        None => {
            &&& r matches Err(ProxyError::NoMatchingUpstream { path }) && path@ == target.path
            &&& after.routes == before.routes
            &&& after.metrics == before.metrics.after_unmatched(method)
        },
        Some(i) => {
            let route = before.routes[i];
            let upstream = route.target_for(route.cursor as nat);
            let accepted = before.metrics.after_request(route.name, method);
            &&& after.routes == before.routes.update(i, route.advanced())
            &&& match uri::build_refusal(
                upstream.scheme,
                upstream.authority,
                route.forwarded(target),
            ) {
                None => {
                    &&& r matches Ok(admission) && admission@ == admission_of(
                        route,
                        method,
                        target,
                        contents,
                    )
                    &&& after.metrics == accepted
                },
                Some(refusal) => {
                    &&& r matches Err(ProxyError::InvalidUri { reason }) && reason@ == refusal
                    &&& after.metrics == accepted.after_error(route.name, method, "rewrite_uri"@)
                },
            }
        },
    }
}

/// The kind under which a failure is counted.
pub open spec fn failure_kind(failure: Failure) -> Seq<char> {
    match failure {
        Failure::Body(BodyCollectError::Io(_)) => "body_read"@,
        Failure::Body(BodyCollectError::TooLarge) => "body_too_large"@,
        Failure::Upstream(_) => "upstream"@,
        Failure::Timeout => "upstream_timeout"@,
    }
}

/// The error with which a failure is answered.
pub open spec fn failure_error(admission: AdmissionView, failure: Failure, e: ProxyError) -> bool {
    match failure {
        Failure::Body(BodyCollectError::Io(message)) => e matches ProxyError::BodyRead { reason }
            && reason@ == message@,
        Failure::Body(BodyCollectError::TooLarge) => e == (ProxyError::BodyTooLarge {
            limit: admission.max_body_bytes,
        }),
        Failure::Upstream(message) => e matches ProxyError::Upstream { upstream, source }
            && upstream@ == admission.upstream && source@ == message@,
        Failure::Timeout => e matches ProxyError::UpstreamTimeout { upstream } && upstream@
            == admission.upstream,
    }
}

/// The metrics once the errors have been counted with which a reply answers the calls of a
/// request.
pub open spec fn after_reply(
    before: MetricsView,
    upstream: Seq<char>,
    methods: Seq<Seq<char>>,
    ids: Seq<Option<Seq<char>>>,
    reply: Reply,
) -> MetricsView
    decreases methods.len(),
{
    if methods.len() == 0 {
        before
    } else {
        let earlier = after_reply(before, upstream, methods.drop_last(), ids, reply);
        match reply.error_of(ids, methods.len() - 1) {
            Some(code) => earlier.after_method_error(
                upstream,
                methods.last(),
                rpc::error_class(code),
            ),
            None => earlier,
        }
    }
}

/// The metrics once an upstream has answered.
pub open spec fn settled_by_answer(
    before: MetricsView,
    admission: AdmissionView,
    methods: Seq<Seq<char>>,
    status: u16,
    elapsed: Duration,
) -> MetricsView {
    before.after_response(
        admission.upstream,
        admission.method,
        status,
        elapsed,
    ).after_method_latency(admission.upstream, methods, elapsed)
}

/// The metrics once a request has come to nothing.
pub open spec fn settled_by_failure(
    before: MetricsView,
    admission: AdmissionView,
    failure: Failure,
) -> MetricsView {
    before.after_error(admission.upstream, admission.method, failure_kind(failure))
}

impl AppState {
    /// The state at the start.
    pub fn new(routes: Vec<Route>, metrics: Metrics) -> (r: AppState)
        ensures
            r@ == (AppStateView { routes: config::route_views(routes@), metrics: metrics@ }),
    {
        AppState { routes, metrics }
    }

    /// The position of the first route that covers a path.
    pub fn match_route(&self, path: &str) -> (r: Option<usize>)
        ensures
            match r {
                Some(i) => first_match(self@.routes, path@) == Some(i as int),
                None => first_match(self@.routes, path@) is None,
            },
            r matches Some(i) ==> i < self@.routes.len(),
    {
        let ghost views = self@.routes;
        let mut i: usize = 0;
        assert(views.skip(0) =~= views);
        while i < self.routes.len()
            invariant
                i <= self.routes@.len(),
                views == self@.routes,
                first_match(views, path@) == (match first_match(views.skip(i as int), path@) {
                    Some(k) => Some(k + i),
                    None => None,
                }),
            decreases self.routes@.len() - i,
        {
            assert(views.skip(i as int).first() == self.routes@[i as int]@);
            assert(views.skip(i as int).drop_first() =~= views.skip(i + 1));
            if self.routes[i].matches(path) {
                return Some(i);
            }
            i += 1;
        }
        None
    }

    /// Takes in a request by its HTTP method, URI and headers.
    pub fn accept(&mut self, method: &str, target: &Uri, headers: &HeaderMap<HeaderValue>) -> (r:
        Result<Admission, ProxyError>)
        requires
            old(self)@.metrics.valid(),
        ensures
            admission_outcome(
                old(self)@,
                method@,
                target@,
                headers::header_contents(*headers),
                final(self)@,
                r,
            ),
            final(self)@.metrics.valid(),
            match first_match(old(self)@.routes, target@.path) {
                Some(i) => old(self)@.routes[i].can_forward(target@) ==> {
                    &&& r is Ok
                    &&& r->Ok_0@.target.path == old(self)@.routes[i].forwarded_path(target@.path)
                    &&& r->Ok_0@.target.query == target@.query
                },
                None => true,
            },
    {
        let ghost before = self@;
        let i: usize = match self.match_route(target.path.as_str()) {
            Some(i) => i,
            None => {
                self.metrics.record_unmatched(method);
                return Err(ProxyError::NoMatchingUpstream { path: target.path.clone() });
            },
        };
        let upstream = self.routes[i].name_arc();
        let timeout = self.routes[i].timeout();
        let max_body_bytes: usize = self.routes[i].max_body_bytes();
        self.metrics.record_request(&*upstream, method);
        let result = self.routes[i].prepare_upstream(target);
        assert(self@.routes =~= before.routes.update(i as int, before.routes[i as int].advanced()));
        match result {
            Ok(prepared) => {
                let original_host = headers::host_of(headers);
                let inferred_proto = headers::infer_request_proto(headers, target);
                Ok(
                    Admission {
                        upstream,
                        method: method.to_owned(),
                        timeout,
                        max_body_bytes,
                        prepared,
                        original_host,
                        inferred_proto,
                    },
                )
            },
            Err(reason) => {
                self.metrics.record_error(&*upstream, method, "rewrite_uri");
                Err(ProxyError::InvalidUri { reason })
            },
        }
    }

    /// Counts the JSON-RPC methods that the body of a request calls, and addresses its headers to
    /// its upstream. Where the methods could not be read, none are counted. Gives the methods
    /// that were.
    pub fn forward<E>(
        &mut self,
        admission: &Admission,
        extracted: Result<Vec<String>, E>,
        peer_ip: &str,
        headers: &mut HeaderMap<HeaderValue>,
    ) -> (r: Vec<String>)
        requires
            old(self)@.metrics.valid(),
            headers::has_room(
                headers::header_contents(*old(headers)),
                headers::FORWARDED_NAMES as nat,
            ),
        ensures
            match extracted {
                Ok(methods) => r@ == methods@,
                Err(_) => r@.len() == 0,
            },
            final(self)@.routes == old(self)@.routes,
            final(self)@.metrics == old(self)@.metrics.after_methods(
                admission@.upstream,
                metrics::method_texts(r@),
            ),
            final(self)@.metrics.valid(),
            headers::header_contents(*final(headers)) == headers::rewritten(
                headers::header_contents(*old(headers)),
                admission@.authority,
                peer_ip@,
                admission@.original_host,
                admission@.inferred_proto,
            ),
    {
        proof {
            use_type_invariant(admission);
        }
        let methods = match extracted {
            Ok(methods) => methods,
            Err(_) => Vec::new(),
        };
        if !methods.is_empty() {
            self.metrics.record_method_calls(&*admission.upstream, methods.as_slice());
        }
        let original_host = match &admission.original_host {
            Some(host) => Some(headers::copy_value(host)),
            None => None,
        };
        headers::rewrite_request_headers(
            headers,
            &admission.prepared,
            peer_ip,
            original_host,
            admission.inferred_proto.as_str(),
        );
        methods
    }

    /// Counts the errors with which the body of an answer answers the calls of a request, given
    /// the methods and the ids of the calls.
    pub fn note_reply(
        &mut self,
        admission: &Admission,
        methods: &[String],
        ids: &[Option<String>],
        reply: &Reply,
    )
        requires
            old(self)@.metrics.valid(),
        ensures
            final(self)@.routes == old(self)@.routes,
            final(self)@.metrics == after_reply(
                old(self)@.metrics,
                admission@.upstream,
                metrics::method_texts(methods@),
                rpc::id_texts(ids@),
                *reply,
            ),
            final(self)@.metrics.valid(),
    {
        let ghost listed = metrics::method_texts(methods@);
        let mut i: usize = 0;
        assert(listed.take(0) =~= Seq::<Seq<char>>::empty());
        while i < methods.len()
            invariant
                i <= methods@.len(),
                listed == metrics::method_texts(methods@),
                self@.metrics.valid(),
                self@.routes == old(self)@.routes,
                self@.metrics == after_reply(
                    old(self)@.metrics,
                    admission@.upstream,
                    listed.take(i as int),
                    rpc::id_texts(ids@),
                    *reply,
                ),
            decreases methods@.len() - i,
        {
            assert(listed.take(i + 1).drop_last() =~= listed.take(i as int));
            assert(listed.take(i + 1).last() == methods@[i as int]@);
            if let Some(label) = rpc::error_label(reply.error_code(ids, i)) {
                self.metrics.record_method_error(
                    &*admission.upstream,
                    methods[i].as_str(),
                    label,
                );
            }
            i += 1;
        }
        assert(listed.take(methods@.len() as int) =~= listed);
    }

    /// Accounts for the answer of an upstream, and notes in its headers that it came through the
    /// proxy. What the body of the answer says is noted once it is there.
    pub fn relay(
        &mut self,
        admission: &Admission,
        methods: &[String],
        status: u16,
        elapsed: Duration,
        headers: &mut HeaderMap<HeaderValue>,
    )
        requires
            old(self)@.metrics.valid(),
            headers::has_room(headers::header_contents(*old(headers)), 0),
        ensures
            final(self)@.routes == old(self)@.routes,
            final(self)@.metrics == settled_by_answer(
                old(self)@.metrics,
                admission@,
                metrics::method_texts(methods@),
                status,
                elapsed,
            ),
            final(self)@.metrics.valid(),
            headers::header_contents(*final(headers)) == headers::appended(
                headers::header_contents(*old(headers)),
                "via"@,
                utf8::encode_utf8("1.1 roxy"@),
            ),
    {
        self.metrics.record_response(
            &*admission.upstream,
            admission.method.as_str(),
            status,
            elapsed,
        );
        self.metrics.record_method_latency(&*admission.upstream, methods, elapsed);
        headers::mark_response(headers);
    }

    /// Accounts for a request that comes to nothing, and gives the error with which its client is
    /// answered.
    pub fn fail(&mut self, admission: &Admission, failure: Failure) -> (e: ProxyError)
        requires
            old(self)@.metrics.valid(),
        ensures
            failure_error(admission@, failure, e),
            final(self)@.routes == old(self)@.routes,
            final(self)@.metrics == settled_by_failure(old(self)@.metrics, admission@, failure),
            final(self)@.metrics.valid(),
    {
        let upstream = admission.upstream.clone();
        let (kind, error) = match failure {
            Failure::Body(BodyCollectError::Io(reason)) => (
                "body_read",
                ProxyError::BodyRead { reason },
            ),
            Failure::Body(BodyCollectError::TooLarge) => (
                "body_too_large",
                ProxyError::BodyTooLarge { limit: admission.max_body_bytes },
            ),
            Failure::Upstream(source) => ("upstream", ProxyError::Upstream { upstream, source }),
            Failure::Timeout => ("upstream_timeout", ProxyError::UpstreamTimeout { upstream }),
        };
        self.metrics.record_error(&*admission.upstream, admission.method.as_str(), kind);
        error
    }

    /// The reply of the metrics endpoint.
    pub fn metrics_reply(&self) -> (r: MetricsReply)
        ensures
            r.status == 200,
            r.content_type is Some,
            r.content_type->0@ == "text/plain; version=0.0.4"@,
            r.body@ == metrics::exposed_text(self@.metrics.prefix, self@.metrics.held),
    {
        metrics::reply_with(self.metrics.encode())
    }
}

/// Where any route covers a path, one is found, and it is the first that does.
pub proof fn first_match_is_found(routes: Seq<RouteView>, path: Seq<char>)
    ensures
        match first_match(routes, path) {
            Some(i) => {
                &&& 0 <= i < routes.len()
                &&& routes[i].covers(path)
                &&& forall|j: int| 0 <= j < i ==> !(#[trigger] routes[j]).covers(path)
            },
            None => forall|j: int| 0 <= j < routes.len() ==> !(#[trigger] routes[j]).covers(path),
        },
    decreases routes.len(),
{
    if routes.len() > 0 && !routes.first().covers(path) {
        let rest = routes.drop_first();
        first_match_is_found(rest, path);
        let bound = match first_match(rest, path) {
            Some(i) => i,
            None => rest.len() as int,
        };
        assert forall|j: int| 0 <= j < bound + 1 implies !(#[trigger] routes[j]).covers(path) by {
            if j > 0 {
                assert(routes[j] == rest[j - 1]);
            }
        }
    }
}

/// Of the routes that a configuration stands for, the one with the longest prefix takes a request:
/// every other route that covers its path has a shorter one.
pub proof fn longest_prefix_wins(
    entries: Seq<(String, UpstreamConfig)>,
    listed: Seq<RouteView>,
    routes: Seq<RouteView>,
    path: Seq<char>,
    other: int,
)
    requires
        config::routes_of(entries) == Ok::<Seq<RouteView>, Seq<char>>(listed),
        config::arranged(listed, routes),
        0 <= other < routes.len(),
        routes[other].covers(path),
    ensures
        first_match(routes, path) is Some,
        ({
            let winner = first_match(routes, path)->0;
            &&& routes[winner].covers(path)
            &&& other == winner || config::prefix_bytes(routes[other]) < config::prefix_bytes(
                routes[winner],
            )
        }),
{
    first_match_is_found(routes, path);
    let winner = first_match(routes, path)->0;
    if other != winner {
        assert(winner < other);
        assert(config::prefix_bytes(routes[winner]) >= config::prefix_bytes(routes[other]));
        config::accepted_upstreams_have_their_routes(entries, listed);
        config::arranging_keeps_prefixes_distinct(listed, routes);
        lemma_configured_prefix(entries, listed, routes, winner);
        lemma_configured_prefix(entries, listed, routes, other);
        let a = routes[winner].prefix;
        let b = routes[other].prefix;
        paths::prefix_covers_itself_and_what_lies_below(a, path);
        paths::prefix_covers_itself_and_what_lies_below(b, path);
        assert(a != b);
        if a.len() < b.len() {
            lemma_longer_prefix_has_more_bytes(a, b, path);
        } else if b.len() < a.len() {
            lemma_longer_prefix_has_more_bytes(b, a, path);
        } else {
            assert(a =~= path.take(a.len() as int));
            assert(b =~= path.take(b.len() as int));
        }
    }
}

proof fn lemma_configured_prefix(
    entries: Seq<(String, UpstreamConfig)>,
    listed: Seq<RouteView>,
    routes: Seq<RouteView>,
    i: int,
)
    requires
        config::routes_of(entries) == Ok::<Seq<RouteView>, Seq<char>>(listed),
        config::arranged(listed, routes),
        0 <= i < routes.len(),
    ensures
        routes[i].prefix.len() > 0,
        routes[i].prefix.last() != '/',
{
    broadcast use vstd::seq_lib::group_to_multiset_ensures;

    config::accepted_upstreams_have_their_routes(entries, listed);
    config::arranging_keeps_every_route(listed, routes);
    assert(routes.contains(routes[i]));
    assert(listed.to_multiset().count(routes[i]) > 0);
    let k = choose|k: int| 0 <= k < listed.len() && listed[k] == routes[i];
    let name = entries[k].0@;
    assert(listed[k].prefix == paths::gate_prefix(name));
    paths::gate_prefix_lies_under_the_base_path(name);
    reveal_strlit("/gate");
}

proof fn lemma_longer_prefix_has_more_bytes(short: Seq<char>, long: Seq<char>, path: Seq<char>)
    requires
        short.len() < long.len(),
        path == short + path.skip(short.len() as int),
        path == long + path.skip(long.len() as int),
    ensures
        utf8::encode_utf8(short).len() < utf8::encode_utf8(long).len(),
{
    let rest = long.skip(short.len() as int);
    assert(long =~= short + rest) by {
        assert forall|i: int| 0 <= i < short.len() implies long[i] == short[i] by {
            assert(path[i] == short[i]);
            assert(path[i] == long[i]);
        }
    }
    lemma_encoded_concatenation(short, rest);
    assert(utf8::encode_utf8(rest).len() > 0) by {
        reveal_with_fuel(utf8::encode_utf8, 2);
    }
}

proof fn lemma_encoded_concatenation(a: Seq<char>, b: Seq<char>)
    ensures
        utf8::encode_utf8(a + b) == utf8::encode_utf8(a) + utf8::encode_utf8(b),
    decreases a.len(),
{
    if a.len() > 0 {
        lemma_encoded_concatenation(a.drop_first(), b);
        assert((a + b).drop_first() =~= a.drop_first() + b);
        assert(utf8::encode_utf8(a + b) =~= utf8::encode_utf8(a) + utf8::encode_utf8(b));
    } else {
        assert(a + b =~= b);
        assert(utf8::encode_utf8(a) =~= Seq::empty());
        assert(utf8::encode_utf8(a + b) =~= utf8::encode_utf8(a) + utf8::encode_utf8(b));
    }
}

/// Counting the errors of a reply touches nothing but their counts.
pub proof fn counting_errors_keeps_the_rest(
    before: MetricsView,
    upstream: Seq<char>,
    methods: Seq<Seq<char>>,
    ids: Seq<Option<Seq<char>>>,
    reply: Reply,
)
    requires
        before.valid(),
    ensures
        ({
            let after = after_reply(before, upstream, methods, ids, reply);
            &&& after.valid()
            &&& after.held.gauges == before.held.gauges
            &&& after.held.histograms == before.held.histograms
            &&& forall|i: int|
                0 <= i < after.held.counters.len() && i != metrics::METHOD_ERRORS
                    ==> #[trigger] after.held.counters[i] == before.held.counters[i]
        }),
    decreases methods.len(),
{
    if methods.len() > 0 {
        counting_errors_keeps_the_rest(before, upstream, methods.drop_last(), ids, reply);
    }
}

/// A reply without an error counts none.
pub proof fn reply_without_errors_counts_none(
    before: MetricsView,
    upstream: Seq<char>,
    methods: Seq<Seq<char>>,
    ids: Seq<Option<Seq<char>>>,
    reply: Reply,
)
    requires
        forall|call: int|
            0 <= call < methods.len() ==> (#[trigger] reply.error_of(ids, call)) is None,
    ensures
        after_reply(before, upstream, methods, ids, reply) == before,
    decreases methods.len(),
{
    if methods.len() > 0 {
        assert(reply.error_of(ids, methods.len() - 1) is None);
        reply_without_errors_counts_none(before, upstream, methods.drop_last(), ids, reply);
    }
}

/// A call that is answered with an error raises the count of its upstream, its method and the
/// class of the error by one, unless the count runs out of range.
pub proof fn error_of_a_call_is_counted(
    before: MetricsView,
    upstream: Seq<char>,
    method: Seq<char>,
    ids: Seq<Option<Seq<char>>>,
    reply: Reply,
)
    requires
        before.valid(),
        reply.error_of(ids, 0) is Some,
        ({
            let class = rpc::error_class(reply.error_of(ids, 0)->0);
            let slot = metrics::slot_of(seq![upstream, method, class]);
            metrics::count_at(before.method_errors(), slot) < u64::MAX
        }),
    ensures
        ({
            let class = rpc::error_class(reply.error_of(ids, 0)->0);
            let slot = metrics::slot_of(seq![upstream, method, class]);
            let after = after_reply(before, upstream, seq![method], ids, reply);
            metrics::count_at(after.method_errors(), slot) == metrics::count_at(
                before.method_errors(),
                slot,
            ) + 1
        }),
{
    reveal_with_fuel(after_reply, 2);
    assert(seq![method].drop_last() =~= Seq::<Seq<char>>::empty());
}

/// Whatever comes of a request that a route has taken on, it is no longer under way in the end:
/// the number of requests under way is what it was before, for every upstream.
pub proof fn every_request_is_settled(
    before: MetricsView,
    admission: AdmissionView,
    methods: Seq<Seq<char>>,
    status: u16,
    elapsed: Duration,
    failure: Failure,
    slot: u64,
)
    requires
        before.valid(),
    ensures
        ({
            let accepted = before.after_request(admission.upstream, admission.method);
            let forwarded = accepted.after_methods(admission.upstream, methods);
            let level = metrics::level_at(before.inflight(), slot);
            &&& metrics::level_at(
                settled_by_failure(accepted, admission, failure).inflight(),
                slot,
            ) == level
            &&& metrics::level_at(
                settled_by_failure(forwarded, admission, failure).inflight(),
                slot,
            ) == level
            &&& metrics::level_at(
                settled_by_answer(forwarded, admission, methods, status, elapsed).inflight(),
                slot,
            ) == level
        }),
{
    let accepted = before.after_request(admission.upstream, admission.method);
    let forwarded = accepted.after_methods(admission.upstream, methods);
    metrics::counting_methods_keeps_the_rest(accepted, admission.upstream, methods);
    let answered = forwarded.after_response(
        admission.upstream,
        admission.method,
        status,
        elapsed,
    );
    metrics::timing_methods_keeps_the_rest(answered, admission.upstream, methods, elapsed);
}

/// How failures are answered: a body over the limit with 413, one that cannot be read with 400, an
/// upstream that does not answer in time with 504, and one that fails with 502.
pub proof fn failures_are_answered(admission: AdmissionView, failure: Failure, e: ProxyError)
    requires
        failure_error(admission, failure, e),
    ensures
        e.status_code() == match failure {
            Failure::Body(BodyCollectError::TooLarge) => 413u16,
            Failure::Body(BodyCollectError::Io(_)) => 400u16,
            Failure::Upstream(_) => 502u16,
            Failure::Timeout => 504u16,
        },
{
}

/// A request goes to the first route that covers its path, and to the target of that route whose
/// turn it is. It has the timeout and the body limit of the route, and remembers its HTTP method,
/// the host that it was sent to and the protocol by which it came. It is counted at that route,
/// whose turn passes on, and no other route changes.
pub proof fn request_is_taken_on_by_its_route(
    before: AppStateView,
    method: Seq<char>,
    target: UriView,
    contents: Map<Seq<char>, Seq<Seq<u8>>>,
    after: AppStateView,
    admission: Admission,
    i: int,
    round: nat,
    place: nat,
)
    requires
        admission_outcome(before, method, target, contents, after, Ok(admission)),
        0 <= i < before.routes.len(),
        before.routes[i].covers(target.path),
        forall|j: int| 0 <= j < i ==> !(#[trigger] before.routes[j]).covers(target.path),
        place < before.routes[i].targets.len(),
        before.routes[i].cursor == round * before.routes[i].targets.len() + place,
    ensures
        ({
            let route = before.routes[i];
            let upstream = route.targets[place as int];
            &&& uri::build_refusal(upstream.scheme, upstream.authority, route.forwarded(target)) is None
            &&& admission@.upstream == route.name
            &&& admission@.method == method
            &&& admission@.timeout == route.timeout
            &&& admission@.max_body_bytes == route.max_body_bytes
            &&& admission@.authority == upstream.authority
            &&& admission@.target.scheme == Some(upstream.scheme)
            &&& admission@.target.authority == Some(upstream.authority)
            &&& contents.contains_key("host"@) ==> admission@.original_host == Some(
                contents["host"@].first(),
            )
            &&& !contents.contains_key("host"@) ==> admission@.original_host is None
            &&& admission@.inferred_proto == headers::request_proto(contents, target)
            &&& route.valid() && uri::path_text(target.path) && (target.query matches Some(q)
                ==> uri::query_text(q)) ==> admission@.target.path == route.forwarded_path(
                target.path,
            ) && admission@.target.query == target.query
            &&& after.routes == before.routes.update(i, route.advanced())
            &&& after.metrics == before.metrics.after_request(route.name, method)
        }),
{
    let route = before.routes[i];
    first_match_is_found(before.routes, target.path);
    assert(first_match(before.routes, target.path) == Some(i)) by {
        let found = first_match(before.routes, target.path);
        if found is Some && found->0 < i {
            assert(!before.routes[found->0].covers(target.path));
        }
    }
    route::turns_go_through_the_list(route, round, place);
    if route.valid() && uri::path_text(target.path) && (target.query matches Some(q)
        ==> uri::query_text(q)) {
        route::forwarded_path_is_absolute(route, target.path);
        uri::joined_parts_come_back(route.forwarded_path(target.path), target.query);
    }
}

/// A request that no route covers is refused with its path, counted as one without route, and
/// takes no turn of any route.
pub proof fn request_without_route_is_refused(
    before: AppStateView,
    method: Seq<char>,
    target: UriView,
    contents: Map<Seq<char>, Seq<Seq<u8>>>,
    after: AppStateView,
    r: Result<Admission, ProxyError>,
)
    requires
        admission_outcome(before, method, target, contents, after, r),
        forall|j: int|
            0 <= j < before.routes.len() ==> !(#[trigger] before.routes[j]).covers(target.path),
    ensures
        r is Err,
        r->Err_0 is NoMatchingUpstream,
        r->Err_0.status_code() == 404,
        r->Err_0.reply_text() == "no upstream configured for path "@ + target.path,
        after.routes == before.routes,
        after.metrics == before.metrics.after_unmatched(method),
{
    first_match_is_found(before.routes, target.path);
    if first_match(before.routes, target.path) is Some {
        assert(!before.routes[first_match(before.routes, target.path)->0].covers(target.path));
    }
}

/// A request that a route covers is refused only where no URI can be built for it. It is then
/// answered with the reason, counted as accepted and as failed at that route, and has taken its
/// turn.
pub proof fn covered_request_is_refused_only_for_its_uri(
    before: AppStateView,
    method: Seq<char>,
    target: UriView,
    contents: Map<Seq<char>, Seq<Seq<u8>>>,
    after: AppStateView,
    e: ProxyError,
    i: int,
)
    requires
        admission_outcome(before, method, target, contents, after, Err(e)),
        0 <= i < before.routes.len(),
        before.routes[i].covers(target.path),
        forall|j: int| 0 <= j < i ==> !(#[trigger] before.routes[j]).covers(target.path),
    ensures
        ({
            let route = before.routes[i];
            let upstream = route.target_for(route.cursor as nat);
            let refusal = uri::build_refusal(
                upstream.scheme,
                upstream.authority,
                route.forwarded(target),
            );
            &&& refusal is Some
            &&& e is InvalidUri
            &&& e.status_code() == 502
            &&& e.reply_text() == "invalid upstream uri: "@ + refusal->0
            &&& after.routes == before.routes.update(i, route.advanced())
            &&& after.metrics == before.metrics.after_request(route.name, method).after_error(
                route.name,
                method,
                "rewrite_uri"@,
            )
        }),
{
    first_match_is_found(before.routes, target.path);
    assert(first_match(before.routes, target.path) == Some(i)) by {
        let found = first_match(before.routes, target.path);
        if found is Some && found->0 < i {
            assert(!before.routes[found->0].covers(target.path));
        }
    }
}

/// Each kind of failure is counted under its own name.
pub proof fn failures_are_told_apart(failure: Failure)
    ensures
        failure_kind(failure) == "upstream_timeout"@ <==> failure is Timeout,
        failure_kind(failure) == "upstream"@ <==> failure is Upstream,
        failure_kind(failure) == "body_too_large"@ <==> failure == Failure::Body(
            BodyCollectError::TooLarge,
        ),
        failure_kind(failure) == "body_read"@ <==> failure is Body && failure->Body_0 is Io,
{
    reveal_strlit("upstream_timeout");
    reveal_strlit("upstream");
    reveal_strlit("body_too_large");
    reveal_strlit("body_read");
    assert("upstream_timeout"@.len() == 16);
    assert("upstream"@.len() == 8);
    assert("body_too_large"@.len() == 14);
    assert("body_read"@.len() == 9);
}

/// What a client is told of a failure: the limit that its body exceeds is that of the route that
/// took its request on, and the reason why its body could not be read is given in full; an
/// upstream that fails or does not answer in time is named to the log and not to the client.
pub proof fn failures_are_explained(admission: AdmissionView, failure: Failure, e: ProxyError)
    requires
        failure_error(admission, failure, e),
    ensures
        match failure {
            Failure::Body(BodyCollectError::TooLarge) => e.reply_text()
                == "request body exceeds limit of "@ + text::decimal(
                admission.max_body_bytes as nat,
            ) + " bytes"@,
            Failure::Body(BodyCollectError::Io(reason)) => e.reply_text()
                == "failed to read request body: "@ + reason@,
            Failure::Upstream(source) => e.reply_text() == "upstream request failed"@
                && e.message_text() == "upstream '"@ + admission.upstream + "' request failed: "@
                + source@,
            Failure::Timeout => e.reply_text() == "upstream timed out"@ && e.message_text()
                == "upstream '"@ + admission.upstream + "' timed out"@,
        },
{
}

/// A request that comes to nothing is counted once among the errors, by the name of its route, its
/// HTTP method and the kind of its failure, and is no longer under way. Nothing else changes.
pub proof fn failure_is_counted_at_its_route(
    before: MetricsView,
    admission: AdmissionView,
    failure: Failure,
)
    requires
        before.valid(),
    ensures
        ({
            let was = before.held;
            let after = settled_by_failure(before, admission, failure).held;
            let labels = seq![admission.upstream, admission.method, failure_kind(failure)];
            &&& settled_by_failure(before, admission, failure).prefix == before.prefix
            &&& after.counters == was.counters.update(
                2,
                (was.counters[2].0, metrics::counted(was.counters[2].1, labels)),
            )
            &&& after.gauges == was.gauges.update(
                0,
                (was.gauges[0].0, metrics::lowered(was.gauges[0].1, seq![admission.upstream])),
            )
            &&& after.histograms == was.histograms
        }),
{
    metrics::failed_request_is_counted(
        before,
        admission.upstream,
        admission.method,
        failure_kind(failure),
    );
}

/// An answered request is counted once among the responses, by the name of its route, its HTTP
/// method and the status, and is no longer under way; the time that it took is observed once for
/// the request and once for each JSON-RPC call of it. Nothing else changes.
pub proof fn answer_is_accounted_for_at_its_route(
    before: MetricsView,
    admission: AdmissionView,
    methods: Seq<Seq<char>>,
    status: u16,
    elapsed: Duration,
    slot: u64,
)
    requires
        before.valid(),
    ensures
        ({
            let was = before.held;
            let after = settled_by_answer(before, admission, methods, status, elapsed).held;
            let labels = seq![
                admission.upstream,
                admission.method,
                text::decimal(status as nat),
            ];
            &&& after.counters == was.counters.update(
                1,
                (was.counters[1].0, metrics::counted(was.counters[1].1, labels)),
            )
            &&& after.gauges == was.gauges.update(
                0,
                (was.gauges[0].0, metrics::lowered(was.gauges[0].1, seq![admission.upstream])),
            )
            &&& after.histograms.len() == 2
            &&& after.histograms[0].1 == metrics::observed(
                was.histograms[0].1,
                seq![admission.upstream, admission.method],
                elapsed,
            )
            &&& metrics::spans_at(after.histograms[1].1, slot) == metrics::spans_at(
                was.histograms[1].1,
                slot,
            ) + Seq::new(
                metrics::calls_at(admission.upstream, methods, slot),
                |i: int| elapsed,
            )
        }),
{
    let answered = before.after_response(admission.upstream, admission.method, status, elapsed);
    metrics::answer_is_counted_and_timed(
        before,
        admission.upstream,
        admission.method,
        status,
        elapsed,
    );
    metrics::recording_keeps_the_families(
        before,
        admission.upstream,
        admission.method,
        admission.method,
        status,
        elapsed,
    );
    metrics::timing_methods_keeps_the_rest(answered, admission.upstream, methods, elapsed);
    metrics::each_call_is_timed_once(answered, admission.upstream, methods, elapsed, slot);
}

/// How many of the calls of a request are answered with an error that is kept at the slot.
pub open spec fn errors_at(
    upstream: Seq<char>,
    methods: Seq<Seq<char>>,
    ids: Seq<Option<Seq<char>>>,
    reply: Reply,
    slot: u64,
) -> nat
    decreases methods.len(),
{
    if methods.len() == 0 {
        0
    } else {
        let code = reply.error_of(ids, methods.len() - 1);
        errors_at(upstream, methods.drop_last(), ids, reply, slot) + if code is Some
            && metrics::slot_of(seq![upstream, methods.last(), rpc::error_class(code->0)])
            == slot {
            1nat
        } else {
            0nat
        }
    }
}

/// Every call of a request that is answered with an error is counted once, at the slot of its
/// upstream, its method and the class of its error, however many calls the request has, unless the
/// count runs out of range.
pub proof fn each_error_is_counted_once(
    before: MetricsView,
    upstream: Seq<char>,
    methods: Seq<Seq<char>>,
    ids: Seq<Option<Seq<char>>>,
    reply: Reply,
    slot: u64,
)
    requires
        before.valid(),
        metrics::count_at(before.held.counters[4].1, slot) + errors_at(
            upstream,
            methods,
            ids,
            reply,
            slot,
        ) <= u64::MAX,
    ensures
        metrics::count_at(
            after_reply(before, upstream, methods, ids, reply).held.counters[4].1,
            slot,
        ) == metrics::count_at(before.held.counters[4].1, slot) + errors_at(
            upstream,
            methods,
            ids,
            reply,
            slot,
        ),
    decreases methods.len(),
{
    if methods.len() > 0 {
        let head = methods.drop_last();
        each_error_is_counted_once(before, upstream, head, ids, reply, slot);
        counting_errors_keeps_the_rest(before, upstream, head, ids, reply);
        let earlier = after_reply(before, upstream, head, ids, reply);
        if let Some(code) = reply.error_of(ids, methods.len() - 1) {
            metrics::failed_call_is_counted(
                earlier,
                upstream,
                methods.last(),
                rpc::error_class(code),
            );
            metrics::counting_adds_one(
                earlier.held.counters[4].1,
                seq![upstream, methods.last(), rpc::error_class(code)],
                slot,
            );
        }
    }
}

/// Of the routes that a configuration stands for, the one that takes a request has a prefix of
/// more characters than every other route that covers its path.
pub proof fn longest_prefix_in_characters_wins(
    entries: Seq<(String, UpstreamConfig)>,
    listed: Seq<RouteView>,
    routes: Seq<RouteView>,
    path: Seq<char>,
    other: int,
)
    requires
        config::routes_of(entries) == Ok::<Seq<RouteView>, Seq<char>>(listed),
        config::arranged(listed, routes),
        0 <= other < routes.len(),
        routes[other].covers(path),
    ensures
        first_match(routes, path) is Some,
        other == first_match(routes, path)->0 || routes[other].prefix.len()
            < routes[first_match(routes, path)->0].prefix.len(),
{
    longest_prefix_wins(entries, listed, routes, path, other);
    first_match_is_found(routes, path);
    let winner = first_match(routes, path)->0;
    if other != winner {
        lemma_configured_prefix(entries, listed, routes, winner);
        lemma_configured_prefix(entries, listed, routes, other);
        let a = routes[winner].prefix;
        let b = routes[other].prefix;
        paths::prefix_covers_itself_and_what_lies_below(a, path);
        paths::prefix_covers_itself_and_what_lies_below(b, path);
        if a.len() < b.len() {
            lemma_longer_prefix_has_more_bytes(a, b, path);
        } else if a.len() == b.len() {
            assert(a =~= path.take(a.len() as int));
            assert(b =~= path.take(b.len() as int));
        }
    }
}

/// One more call in a request is counted among the errors once more where it is answered with
/// one, by its upstream, its method and the class of the error, however many calls came before it;
/// where it is not, nothing changes. A request without calls counts no error.
pub proof fn one_more_failed_call_is_one_more_error(
    before: MetricsView,
    upstream: Seq<char>,
    methods: Seq<Seq<char>>,
    method: Seq<char>,
    ids: Seq<Option<Seq<char>>>,
    reply: Reply,
)
    requires
        before.valid(),
    ensures
        after_reply(before, upstream, Seq::empty(), ids, reply) == before,
        match reply.error_of(ids, methods.len() as int) {
            Some(code) => after_reply(
                before,
                upstream,
                methods.push(method),
                ids,
                reply,
            ).held.counters[4].1 == metrics::counted(
                after_reply(before, upstream, methods, ids, reply).held.counters[4].1,
                seq![upstream, method, rpc::error_class(code)],
            ),
            None => after_reply(before, upstream, methods.push(method), ids, reply) == after_reply(
                before,
                upstream,
                methods,
                ids,
                reply,
            ),
        },
{
    assert(methods.push(method).drop_last() =~= methods);
    counting_errors_keeps_the_rest(before, upstream, methods, ids, reply);
}

/// Of the routes of an accepted configuration, the one with the longest prefix takes a request:
/// every other one that covers its path has a shorter prefix.
pub proof fn accepted_configuration_matches_the_longest_prefix(
    entries: Seq<(String, UpstreamConfig)>,
    routes: Vec<Route>,
    path: Seq<char>,
    other: int,
)
    requires
        config::upstreams_outcome(entries, Ok(routes)),
        0 <= other < routes@.len(),
        routes@[other]@.covers(path),
    ensures
        ({
            let found = first_match(config::route_views(routes@), path);
            &&& found is Some
            &&& 0 <= found->0 < routes@.len()
            &&& routes@[found->0]@.covers(path)
            &&& other == found->0 || routes@[other]@.prefix.len()
                < routes@[found->0]@.prefix.len()
        }),
{
    let listed = config::routes_of(entries)->Ok_0;
    let views = config::route_views(routes@);
    assert(views[other] == routes@[other]@);
    first_match_is_found(views, path);
    longest_prefix_in_characters_wins(entries, listed, views, path, other);
}

/// A request for the reserved base path, the segment of the name of an upstream, and whatever lies
/// below, is taken by the route of that upstream, whatever other upstreams an accepted
/// configuration has.
pub proof fn request_under_a_name_reaches_its_upstream(
    entries: Seq<(String, UpstreamConfig)>,
    routes: Vec<Route>,
    i: int,
    rest: Seq<char>,
)
    requires
        config::upstreams_outcome(entries, Ok(routes)),
        0 <= i < entries.len(),
        paths::segment_of(entries[i].0@).len() > 0,
        rest.len() > 0 ==> rest[0] == '/',
    ensures
        ({
            let path = "/gate/"@ + paths::segment_of(entries[i].0@) + rest;
            let found = first_match(config::route_views(routes@), path);
            &&& found is Some
            &&& 0 <= found->0 < routes@.len()
            &&& routes@[found->0]@.name == entries[i].0@
            &&& routes@[found->0]@.prefix == "/gate/"@ + paths::segment_of(entries[i].0@)
        }),
{
    broadcast use vstd::seq_lib::group_to_multiset_ensures;

    let name = entries[i].0@;
    let prefix = "/gate/"@ + paths::segment_of(name);
    let path = prefix + rest;
    let listed = config::routes_of(entries)->Ok_0;
    let views = config::route_views(routes@);
    reveal_strlit("/gate/");
    reveal_strlit("/gate");
    reveal_strlit("/");
    paths::whole_segment_is_mounted(name);
    paths::segment_holds_segment_chars(name);
    config::accepted_upstreams_have_their_routes(entries, listed);
    config::arranging_keeps_every_route(listed, views);
    assert(listed[i].name == name && listed[i].prefix == prefix);
    assert(listed.contains(listed[i]));
    assert(listed.to_multiset().count(listed[i]) > 0);
    assert(views.contains(listed[i]));
    let k = choose|k: int| 0 <= k < views.len() && views[k] == listed[i];
    assert(views[k] == routes@[k]@);
    assert(prefix.last() == paths::segment_of(name).last());
    route::route_covers_its_prefix_and_what_lies_below(views[k], path);
    if rest.len() == 0 {
        assert(path =~= prefix);
    } else {
        assert(prefix + "/"@ =~= path.subrange(0, (prefix.len() + 1) as int));
    }
    assert(views[k].covers(path));
    accepted_configuration_matches_the_longest_prefix(entries, routes, path, k);
    let w = first_match(views, path)->0;
    assert(views[w] == routes@[w]@);
    if w != k {
        lemma_configured_prefix(entries, listed, views, w);
        assert(views.to_multiset().count(views[w]) > 0) by {
            assert(views.contains(views[w]));
        }
        let m = choose|m: int| 0 <= m < listed.len() && listed[m] == views[w];
        let longer = views[w].prefix;
        let taken = entries[m].0@;
        assert(longer == paths::gate_prefix(taken));
        paths::whole_segment_is_mounted(taken);
        paths::segment_holds_segment_chars(taken);
        route::route_covers_its_prefix_and_what_lies_below(views[w], path);
        paths::prefix_covers_itself_and_what_lies_below(longer, path);
        let at = prefix.len() as int;
        assert(path[at] == longer[at]);
        assert(path[at] == rest[0]);
        assert(longer[at] == paths::segment_of(taken)[at - 6]);
        assert(paths::segment_char(paths::segment_of(taken)[at - 6]));
    }
}

/// A request is matched with the first route that covers its path, and with none exactly if no
/// route does.
pub proof fn request_is_matched_with_the_first_route(
    state: AppState,
    path: &str,
    r: Option<usize>,
)
    requires
        call_ensures(AppState::match_route, (&state, path), r),
    ensures
        r is Some ==> r->Some_0 < state@.routes.len() && state@.routes[r->Some_0 as int].covers(
            path@,
        ),
        r is Some ==> forall|j: int|
            0 <= j < r->Some_0 ==> !(#[trigger] state@.routes[j]).covers(path@),
        r is None ==> forall|j: int|
            0 <= j < state@.routes.len() ==> !(#[trigger] state@.routes[j]).covers(path@),
{
    first_match_is_found(state@.routes, path@);
}

/// What is known of a request that was taken on is what its route gave it.
pub proof fn admission_says_what_its_route_gave(
    admission: Admission,
    target: &Uri,
    timeout: Duration,
    max_body_bytes: usize,
)
    requires
        call_ensures(Admission::target, (&admission,), target),
        call_ensures(Admission::timeout, (&admission,), timeout),
        call_ensures(Admission::max_body_bytes, (&admission,), max_body_bytes),
    ensures
        target@ == admission@.target,
        timeout == admission@.timeout,
        max_body_bytes == admission@.max_body_bytes,
{
}

/// A request that comes in and that some route covers goes to the first such route and to the
/// target of it whose turn it is, with the timeout and the body limit of that route, and is
/// counted there. Where it needs no encoding and is not too long, it is taken on, with the path
/// that the route asks for and the query as it came.
pub proof fn incoming_request_goes_to_its_route(
    state: &mut AppState,
    method: &str,
    target: Uri,
    headers: HeaderMap<HeaderValue>,
    r: Result<Admission, ProxyError>,
    i: int,
    round: nat,
    place: nat,
)
    requires
        call_ensures(AppState::accept, (state, method, &target, &headers), r),
        0 <= i < old(state)@.routes.len(),
        old(state)@.routes[i].covers(target@.path),
        forall|j: int| 0 <= j < i ==> !(#[trigger] old(state)@.routes[j]).covers(target@.path),
        place < old(state)@.routes[i].targets.len(),
        old(state)@.routes[i].cursor == round * old(state)@.routes[i].targets.len() + place,
    ensures
        ({
            let route = old(state)@.routes[i];
            let upstream = route.targets[place as int];
            let fits = uri::path_text(target@.path) && (target@.query matches Some(q)
                ==> uri::query_text(q)) && utf8::encode_utf8(route.forwarded(target@)).len()
                <= 65_534;
            &&& fits ==> r is Ok && r->Ok_0@.target.path == route.forwarded_path(target@.path)
                && r->Ok_0@.target.query == target@.query
            &&& r is Ok ==> r->Ok_0@.upstream == route.name && r->Ok_0@.method == method@
                && r->Ok_0@.timeout == route.timeout && r->Ok_0@.max_body_bytes
                == route.max_body_bytes && r->Ok_0@.authority == upstream.authority
                && r->Ok_0@.target.scheme == Some(upstream.scheme)
                && r->Ok_0@.target.authority == Some(upstream.authority)
            &&& r is Ok ==> final(state)@.metrics == old(state)@.metrics.after_request(
                route.name,
                method@,
            )
            &&& r is Err ==> r->Err_0 is InvalidUri
            &&& final(state)@.routes == old(state)@.routes.update(i, route.advanced())
        }),
{
    let before = old(state)@;
    let after = final(state)@;
    let contents = headers::header_contents(headers);
    first_match_is_found(before.routes, target@.path);
    assert(first_match(before.routes, target@.path) == Some(i)) by {
        let found = first_match(before.routes, target@.path);
        if found is Some && found->0 < i {
            assert(!before.routes[found->0].covers(target@.path));
        }
    }
    if r is Ok {
        request_is_taken_on_by_its_route(
            before,
            method@,
            target@,
            contents,
            after,
            r->Ok_0,
            i,
            round,
            place,
        );
    } else {
        covered_request_is_refused_only_for_its_uri(
            before,
            method@,
            target@,
            contents,
            after,
            r->Err_0,
            i,
        );
    }
}

/// A request that comes in and that no route covers is answered with 404 and its path, and
/// counted as one without route.
pub proof fn incoming_request_without_route_is_not_found(
    state: &mut AppState,
    method: &str,
    target: Uri,
    headers: HeaderMap<HeaderValue>,
    r: Result<Admission, ProxyError>,
)
    requires
        call_ensures(AppState::accept, (state, method, &target, &headers), r),
        forall|j: int|
            0 <= j < old(state)@.routes.len() ==> !(#[trigger] old(state)@.routes[j]).covers(
                target@.path,
            ),
    ensures
        r is Err,
        r->Err_0.status_code() == 404,
        r->Err_0.reply_text() == "no upstream configured for path "@ + target.path@,
        final(state)@.routes == old(state)@.routes,
        final(state)@.metrics == old(state)@.metrics.after_unmatched(method@),
{
    request_without_route_is_refused(
        old(state)@,
        method@,
        target@,
        headers::header_contents(headers),
        final(state)@,
        r,
    );
}

/// A request is sent on with all of its JSON-RPC methods counted, and none where they could not
/// be read; the headers that name its way are written, and no route changes.
pub proof fn request_is_sent_on_and_its_calls_counted<E>(
    state: &mut AppState,
    admission: Admission,
    extracted: Result<Vec<String>, E>,
    peer_ip: &str,
    headers: &mut HeaderMap<HeaderValue>,
    methods: Vec<String>,
)
    requires
        call_ensures(
            AppState::forward::<E>,
            (state, &admission, extracted, peer_ip, headers),
            methods,
        ),
    ensures
        extracted is Ok ==> methods@.len() == extracted->Ok_0@.len() && forall|i: int|
            0 <= i < methods@.len() ==> #[trigger] methods@[i] == extracted->Ok_0@[i],
        extracted is Err ==> methods@.len() == 0,
        final(state)@.routes == old(state)@.routes,
        final(state)@.metrics == old(state)@.metrics.after_methods(
            admission@.upstream,
            methods@.map_values(|m: String| m@),
        ),
        headers::header_contents(*final(headers)) == headers::rewritten(
            headers::header_contents(*old(headers)),
            admission@.authority,
            peer_ip@,
            admission@.original_host,
            admission@.inferred_proto,
        ),
{
    assert(metrics::method_texts(methods@) =~= methods@.map_values(|m: String| m@));
}

/// Noting a reply counts the errors of all calls of the request, each once, at the slot of the
/// upstream, the method and the class of the error, within the range of a count; nothing else
/// changes.
pub proof fn noting_a_reply_counts_its_errors(
    state: &mut AppState,
    admission: Admission,
    methods: &[String],
    ids: &[Option<String>],
    reply: Reply,
    slot: u64,
)
    requires
        call_ensures(AppState::note_reply, (state, &admission, methods, ids, &reply), ()),
        old(state)@.metrics.valid(),
        metrics::count_at(old(state)@.metrics.held.counters[4].1, slot) + errors_at(
            admission@.upstream,
            methods@.map_values(|m: String| m@),
            rpc::id_texts(ids@),
            reply,
            slot,
        ) <= u64::MAX,
    ensures
        metrics::count_at(final(state)@.metrics.held.counters[4].1, slot) == metrics::count_at(
            old(state)@.metrics.held.counters[4].1,
            slot,
        ) + errors_at(
            admission@.upstream,
            methods@.map_values(|m: String| m@),
            rpc::id_texts(ids@),
            reply,
            slot,
        ),
        final(state)@.routes == old(state)@.routes,
        final(state)@.metrics.held.gauges == old(state)@.metrics.held.gauges,
        final(state)@.metrics.held.histograms == old(state)@.metrics.held.histograms,
        forall|i: int|
            0 <= i < 4 ==> #[trigger] final(state)@.metrics.held.counters[i]
                == old(state)@.metrics.held.counters[i],
{
    let listed = metrics::method_texts(methods@);
    assert(listed =~= methods@.map_values(|m: String| m@));
    each_error_is_counted_once(
        old(state)@.metrics,
        admission@.upstream,
        listed,
        rpc::id_texts(ids@),
        reply,
        slot,
    );
    counting_errors_keeps_the_rest(
        old(state)@.metrics,
        admission@.upstream,
        listed,
        rpc::id_texts(ids@),
        reply,
    );
}

/// An answer is counted by its route, HTTP method and status, its time is observed for the request
/// and for each of its calls, the request is no longer under way, and the answer is marked as one
/// that came through this proxy.
pub proof fn answer_is_relayed_and_accounted_for(
    state: &mut AppState,
    admission: Admission,
    methods: &[String],
    status: u16,
    elapsed: Duration,
    headers: &mut HeaderMap<HeaderValue>,
    slot: u64,
)
    requires
        call_ensures(
            AppState::relay,
            (state, &admission, methods, status, elapsed, headers),
            (),
        ),
        old(state)@.metrics.valid(),
    ensures
        ({
            let before = old(state)@.metrics.held;
            let after = final(state)@.metrics.held;
            let name = admission@.upstream;
            let labels = seq![name, admission@.method, text::decimal(status as nat)];
            let was = headers::header_contents(*old(headers));
            let now = headers::header_contents(*final(headers));
            &&& after.counters == before.counters.update(
                1,
                (before.counters[1].0, metrics::counted(before.counters[1].1, labels)),
            )
            &&& after.gauges == before.gauges.update(
                0,
                (before.gauges[0].0, metrics::lowered(before.gauges[0].1, seq![name])),
            )
            &&& after.histograms[0].1 == metrics::observed(
                before.histograms[0].1,
                seq![name, admission@.method],
                elapsed,
            )
            &&& metrics::spans_at(after.histograms[1].1, slot) == metrics::spans_at(
                before.histograms[1].1,
                slot,
            ) + Seq::new(
                metrics::calls_at(name, methods@.map_values(|m: String| m@), slot),
                |i: int| elapsed,
            )
            &&& final(state)@.routes == old(state)@.routes
            &&& now.contains_key("via"@)
            &&& now["via"@].last() == utf8::encode_utf8("1.1 roxy"@)
            &&& now.remove("via"@) == was.remove("via"@)
        }),
{
    let listed = metrics::method_texts(methods@);
    assert(listed =~= methods@.map_values(|m: String| m@));
    answer_is_accounted_for_at_its_route(
        old(state)@.metrics,
        admission@,
        listed,
        status,
        elapsed,
        slot,
    );
    let was = headers::header_contents(*old(headers));
    let now = headers::header_contents(*final(headers));
    assert(now.remove("via"@) =~= was.remove("via"@));
}

/// A request that comes to nothing is answered with the status of its failure, counted by its
/// route, HTTP method and kind of failure, and no longer under way; no route changes.
pub proof fn failure_is_answered_and_counted(
    state: &mut AppState,
    admission: Admission,
    failure: Failure,
    e: ProxyError,
)
    requires
        call_ensures(AppState::fail, (state, &admission, failure), e),
        old(state)@.metrics.valid(),
    ensures
        e.status_code() == match failure {
            Failure::Body(BodyCollectError::TooLarge) => 413u16,
            Failure::Body(BodyCollectError::Io(_)) => 400u16,
            Failure::Upstream(_) => 502u16,
            Failure::Timeout => 504u16,
        },
        failure == Failure::Body(BodyCollectError::TooLarge) ==> e.reply_text()
            == "request body exceeds limit of "@ + text::decimal(
            admission@.max_body_bytes as nat,
        ) + " bytes"@,
        final(state)@.routes == old(state)@.routes,
        final(state)@.metrics == old(state)@.metrics.after_error(
            admission@.upstream,
            admission@.method,
            match failure {
                Failure::Body(BodyCollectError::TooLarge) => "body_too_large"@,
                Failure::Body(BodyCollectError::Io(_)) => "body_read"@,
                Failure::Upstream(_) => "upstream"@,
                Failure::Timeout => "upstream_timeout"@,
            },
        ),
{
}

/// The metrics endpoint always answers with all that was recorded, in the text format of
/// Prometheus.
pub proof fn endpoint_exposes_all_metrics(state: AppState, r: MetricsReply)
    requires
        call_ensures(AppState::metrics_reply, (&state,), r),
    ensures
        r.status == 200,
        r.content_type is Some,
        r.content_type->Some_0@ == "text/plain; version=0.0.4"@,
        r.body@ == metrics::exposed_text(state@.metrics.prefix, state@.metrics.held),
{
}

/// The state starts with the routes that it is given, each at its place, and with their metrics.
pub proof fn state_starts_with_what_it_is_given(
    routes: Vec<Route>,
    metrics: Metrics,
    state: AppState,
)
    requires
        call_ensures(AppState::new, (routes, metrics), state),
    ensures
        state@.routes.len() == routes@.len(),
        forall|i: int| 0 <= i < routes@.len() ==> #[trigger] state@.routes[i] == routes@[i]@,
        state@.metrics == metrics@,
{
}

} // verus!
