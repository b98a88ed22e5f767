//! Configuration: what a configuration file says, and the routes that it stands for.

use std::time::Duration;
use vstd::prelude::*;
use vstd::utf8;

use crate::errors::AppError;
use crate::paths;
use crate::route;
use crate::route::{Route, RouteView, RoutingStrategy, Target, TargetView};
use crate::text;
use crate::uri;
use crate::uri::{Uri, UriView};

verus! {

/// Default socket address used when `bind_addr` is omitted.
pub const DEFAULT_BIND_ADDR: &'static str = "0.0.0.0:8080";

/// Default HTTP endpoint that exposes Prometheus-compatible metrics.
pub const DEFAULT_METRICS_PATH: &'static str = "/metrics";

/// Default configuration file path if `CONFIG_PATH` is unset.
pub const DEFAULT_CONFIG_PATH: &'static str = "config.yaml";

/// Default per-upstream request timeout in milliseconds.
pub const DEFAULT_UPSTREAM_TIMEOUT_MS: u64 = 300_000;

/// Default maximum request body size in bytes.
pub const DEFAULT_MAX_BODY_BYTES: usize = 10 * 1024 * 1024;

/// How a configuration file names a routing strategy.
#[derive(Debug, Clone, Copy, PartialEq, Eq)]
pub enum RoutingKind {
    RoundRobin,
}

impl Default for RoutingKind {
    fn default() -> (r: RoutingKind)
        ensures
            r == RoutingKind::RoundRobin,
    {
        RoutingKind::RoundRobin
    }
}

/// One upstream of a configuration file. What the file leaves out is `None`.
#[derive(Debug)]
pub struct UpstreamConfig {
    pub routing_type: Option<RoutingKind>,
    pub urls: Vec<String>,
    pub timeout_ms: Option<u64>,
    pub max_body_bytes: Option<usize>,
}

/// A configuration file. The upstreams stand in the order of their names, each name once (see
/// [`in_name_order`]).
#[derive(Debug)]
pub struct FileConfig {
    pub bind_addr: Option<String>,
    pub metrics_path: Option<String>,
    pub upstreams: Vec<(String, UpstreamConfig)>,
}

/// The texts of a list of strings.
pub open spec fn texts(list: Seq<String>) -> Seq<Seq<char>> {
    list.map_values(|s: String| s@)
}

/// A message about the upstream of a name.
pub open spec fn about_upstream(name: Seq<char>, complaint: Seq<char>) -> Seq<char> {
    "upstream '"@ + name + complaint
}

/// The timeout of an upstream in milliseconds.
pub open spec fn timeout_of(upstream: UpstreamConfig) -> u64 {
    match upstream.timeout_ms {
        Some(millis) => millis,
        None => DEFAULT_UPSTREAM_TIMEOUT_MS,
    }
}

/// The body limit of an upstream in bytes.
pub open spec fn body_limit_of(upstream: UpstreamConfig) -> usize {
    match upstream.max_body_bytes {
        Some(limit) => limit,
        None => DEFAULT_MAX_BODY_BYTES,
    }
}

/// The target that a URL of an upstream stands for, or why it stands for none.
pub open spec fn target_of(name: Seq<char>, url: Seq<char>) -> Result<TargetView, Seq<char>> {
    target_of_parsed(name, url, uri::parsed_uri(url))
}

/// The target that a URL of an upstream stands for, or why it stands for none, given what the URL
/// parses to.
pub open spec fn target_of_parsed(
    name: Seq<char>,
    url: Seq<char>,
    parsed: Result<UriView, Seq<char>>,
) -> Result<TargetView, Seq<char>> {
    match parsed {
        Err(reason) => Err("invalid url '"@ + url + "' for '"@ + name + "': "@ + reason),
        Ok(parts) => match (parts.scheme, parts.authority, parts.query) {
            (None, _, _) => Err(about_upstream(name, "' url is missing a scheme"@)),
            (_, None, _) => Err(about_upstream(name, "' url is missing a host"@)),
            (_, _, Some(_)) => Err(about_upstream(name, "' url must not include a query string"@)),
            (Some(scheme), Some(authority), None) => Ok(
                TargetView {
                    scheme,
                    authority,
                    base_path: paths::normalized_base_path(parts.path),
                },
            ),
        },
    }
}

/// The targets that the URLs of an upstream stand for, or the complaint about the first that
/// stands for none.
pub open spec fn targets_of(name: Seq<char>, urls: Seq<Seq<char>>) -> Result<
    Seq<TargetView>,
    Seq<char>,
>
    decreases urls.len(),
{
    if urls.len() == 0 {
        Ok(Seq::empty())
    } else {
        match targets_of(name, urls.drop_last()) {
            Err(reason) => Err(reason),
            Ok(targets) => match target_of(name, urls.last()) {
                Err(reason) => Err(reason),
                Ok(target) => Ok(targets.push(target)),
            },
        }
    }
}

/// The route that an upstream stands for, or why it stands for none.
pub open spec fn route_of(name: Seq<char>, upstream: UpstreamConfig) -> Result<
    RouteView,
    Seq<char>,
> {
    if timeout_of(upstream) == 0 {
        Err(about_upstream(name, "' timeout_ms must be greater than zero"@))
    } else if body_limit_of(upstream) == 0 {
        Err(about_upstream(name, "' max_body_bytes must be greater than zero"@))
    } else if upstream.urls@.len() == 0 {
        Err(about_upstream(name, "' must provide at least one url"@))
    } else {
        match targets_of(name, texts(upstream.urls@)) {
            Err(reason) => Err(reason),
            Ok(targets) => Ok(
                RouteView {
                    name,
                    prefix: paths::gate_prefix(name),
                    strategy: RoutingStrategy::RoundRobin,
                    targets,
                    cursor: 0,
                    timeout: route::duration_of_millis(timeout_of(upstream)),
                    max_body_bytes: body_limit_of(upstream),
                },
            ),
        }
    }
}

/// Some route of the list has the prefix.
pub open spec fn has_prefix(routes: Seq<RouteView>, prefix: Seq<char>) -> bool {
    exists|i: int| 0 <= i < routes.len() && (#[trigger] routes[i]).prefix == prefix
}

/// The routes that a list of upstreams stands for, in the order of the list, or the complaint
/// about the first upstream that stands for none or whose prefix is taken.
pub open spec fn routes_of(entries: Seq<(String, UpstreamConfig)>) -> Result<
    Seq<RouteView>,
    Seq<char>,
>
    decreases entries.len(),
{
    if entries.len() == 0 {
        Ok(Seq::empty())
    } else {
        let name = entries.last().0@;
        match routes_of(entries.drop_last()) {
            Err(reason) => Err(reason),
            Ok(routes) => if has_prefix(routes, paths::gate_prefix(name)) {
                Err("duplicate upstream prefix '"@ + paths::gate_prefix(name) + "'"@)
            } else {
                match route_of(name, entries.last().1) {
                    Err(reason) => Err(reason),
                    Ok(r) => Ok(routes.push(r)),
                }
            },
        }
    }
}

/// The length of a route's prefix in bytes.
pub open spec fn prefix_bytes(r: RouteView) -> nat {
    utf8::encode_utf8(r.prefix).len()
}

/// No route stands behind one with a shorter prefix.
pub open spec fn longest_first(routes: Seq<RouteView>) -> bool {
    forall|i: int, j: int|
        0 <= i <= j < routes.len() ==> prefix_bytes(#[trigger] routes[i]) >= prefix_bytes(
            #[trigger] routes[j],
        )
}

/// The routes whose prefix has the given length, in their order.
pub open spec fn of_length(routes: Seq<RouteView>, length: nat) -> Seq<RouteView> {
    routes.filter(|r: RouteView| prefix_bytes(r) == length)
}

/// `routes` holds what `listed` holds, longest prefix first, and routes with prefixes of one
/// length stand as they are listed.
pub open spec fn arranged(listed: Seq<RouteView>, routes: Seq<RouteView>) -> bool {
    &&& longest_first(routes)
    &&& forall|length: nat| #[trigger] of_length(routes, length) == of_length(listed, length)
}

/// The views of a list of routes.
pub open spec fn route_views(routes: Seq<Route>) -> Seq<RouteView> {
    routes.map_values(|r: Route| r@)
}

/// What the upstreams of a configuration file come to: its routes, arranged for matching, or
/// the reason why there are none.
pub open spec fn upstreams_outcome(
    entries: Seq<(String, UpstreamConfig)>,
    r: Result<Vec<Route>, AppError>,
) -> bool {
    if entries.len() == 0 {
        r matches Err(e) && e.is_config("configuration must include at least one upstream"@)
    } else {
        match routes_of(entries) {
            Err(reason) => r matches Err(e) && e.is_config(reason),
            Ok(listed) => r matches Ok(routes) && arranged(listed, route_views(routes@)),
        }
    }
}

fn upstream_error(name: &str, complaint: &str) -> (r: AppError)
    ensures
        r.is_config(about_upstream(name@, complaint@)),
{
    let mut reason = String::from_str("upstream '");
    reason.append(name);
    reason.append(complaint);
    AppError::Config(reason)
}

/// What a URL parses to, as texts.
pub open spec fn parsed_texts(parsed: Result<Uri, String>) -> Result<UriView, Seq<char>> {
    match parsed {
        Ok(parts) => Ok(parts@),
        Err(message) => Err(message@),
    }
}

/// The target that a URL of an upstream stands for, given what the URL parses to.
pub fn target_from(name: &str, url: &str, parsed: Result<Uri, String>) -> (r: Result<
    Target,
    AppError,
>)
    ensures
        match target_of_parsed(name@, url@, parsed_texts(parsed)) {
            Ok(target) => r matches Ok(t) && t@ == target,
            Err(reason) => r matches Err(e) && e.is_config(reason),
        },
{
    let parts = match parsed {
        Ok(parts) => parts,
        Err(message) => {
            let mut reason = String::from_str("invalid url '");
            reason.append(url);
            reason.append("' for '");
            reason.append(name);
            reason.append("': ");
            reason.append(message.as_str());
            return Err(AppError::Config(reason));
        },
    };
    let scheme = match parts.scheme {
        Some(scheme) => scheme,
        None => {
            return Err(upstream_error(name, "' url is missing a scheme"));
        },
    };
    let authority = match parts.authority {
        Some(authority) => authority,
        None => {
            return Err(upstream_error(name, "' url is missing a host"));
        },
    };
    if parts.query.is_some() {
        return Err(upstream_error(name, "' url must not include a query string"));
    }
    let base_path = paths::normalize_base_path(parts.path.as_str());
    Ok(Target { scheme, authority, base_path })
}

/// The target that a URL of an upstream stands for.
pub fn parse_target(name: &str, url: &str) -> (r: Result<Target, AppError>)
    ensures
        match target_of(name@, url@) {
            Ok(target) => r matches Ok(t) && t@ == target && t@.valid(),
            Err(reason) => r matches Err(e) && e.is_config(reason),
        },
{
    let parsed = uri::parse_uri(url);
    proof {
        if parsed is Ok {
            let path = parsed->Ok_0@.path;
            let base_path = paths::normalized_base_path(path);
            text::trim_end_cuts_only_the_run(path, '/');
            assert forall|i: int| 0 <= i < base_path.len() implies uri::path_char(
                #[trigger] base_path[i],
            ) by {
                assert(base_path[i] == path[i] || base_path[i] == '/');
            }
        }
    }
    target_from(name, url, parsed)
}

/// The targets that the URLs of an upstream stand for.
pub fn parse_targets(name: &str, urls: &Vec<String>) -> (r: Result<Vec<Target>, AppError>)
    ensures
        match targets_of(name@, texts(urls@)) {
            Ok(targets) => {
                &&& r matches Ok(list)
                &&& route::target_views(list@) == targets
                &&& forall|i: int| 0 <= i < list@.len() ==> (#[trigger] list@[i])@.valid()
            },
            Err(reason) => r matches Err(e) && e.is_config(reason),
        },
{
    let mut targets: Vec<Target> = Vec::with_capacity(urls.len());
    assert(route::target_views(targets@) =~= Seq::empty());
    let mut i: usize = 0;
    while i < urls.len()
        invariant
            i <= urls@.len(),
            targets_of(name@, texts(urls@).take(i as int)) == Ok::<Seq<TargetView>, Seq<char>>(
                route::target_views(targets@),
            ),
            forall|j: int| 0 <= j < targets@.len() ==> (#[trigger] targets@[j])@.valid(),
        decreases urls@.len() - i,
    {
        let ghost seen = texts(urls@).take(i + 1);
        assert(seen.drop_last() =~= texts(urls@).take(i as int));
        assert(seen.last() == urls@[i as int]@);
        match parse_target(name, urls[i].as_str()) {
            Ok(target) => {
                let ghost before = targets@;
                targets.push(target);
                assert(route::target_views(targets@) =~= route::target_views(before).push(target@));
            },
            Err(e) => {
                proof {
                    lemma_targets_error_stays(name@, texts(urls@), i + 1);
                }
                return Err(e);
            },
        }
        i += 1;
    }
    assert(texts(urls@).take(urls@.len() as int) =~= texts(urls@));
    Ok(targets)
}

proof fn lemma_targets_error_stays(name: Seq<char>, urls: Seq<Seq<char>>, n: int)
    requires
        0 <= n <= urls.len(),
        targets_of(name, urls.take(n)) is Err,
    ensures
        targets_of(name, urls) == targets_of(name, urls.take(n)),
    decreases urls.len() - n,
{
    if n < urls.len() {
        assert(urls.take(n + 1).drop_last() =~= urls.take(n));
        lemma_targets_error_stays(name, urls, n + 1);
    } else {
        assert(urls.take(n) =~= urls);
    }
}

/// The route that an upstream stands for.
pub fn parse_upstream(name: &str, upstream: &UpstreamConfig) -> (r: Result<Route, AppError>)
    ensures
        match route_of(name@, *upstream) {
            Ok(view) => r matches Ok(route) && route@ == view,
            Err(reason) => r matches Err(e) && e.is_config(reason),
        },
{
    let prefix = match paths::derive_gate_prefix(name) {
        Ok(prefix) => prefix,
        Err(e) => {
            return Err(e);
        },
    };
    let timeout_ms: u64 = match upstream.timeout_ms {
        Some(millis) => millis,
        None => DEFAULT_UPSTREAM_TIMEOUT_MS,
    };
    if timeout_ms == 0 {
        return Err(upstream_error(name, "' timeout_ms must be greater than zero"));
    }
    let timeout = Duration::from_millis(timeout_ms);
    let max_body_bytes: usize = match upstream.max_body_bytes {
        Some(limit) => limit,
        None => DEFAULT_MAX_BODY_BYTES,
    };
    if max_body_bytes == 0 {
        return Err(upstream_error(name, "' max_body_bytes must be greater than zero"));
    }
    let kind = match upstream.routing_type {
        Some(kind) => kind,
        None => RoutingKind::default(),
    };
    let strategy = match kind {
        RoutingKind::RoundRobin => RoutingStrategy::RoundRobin,
    };
    if upstream.urls.is_empty() {
        return Err(upstream_error(name, "' must provide at least one url"));
    }
    let targets = match parse_targets(name, &upstream.urls) {
        Ok(targets) => targets,
        Err(e) => {
            return Err(e);
        },
    };
    proof {
        lemma_targets_count(name@, texts(upstream.urls@));
    }
    Route::new(
        route::shared_text(name.to_owned()),
        prefix,
        strategy,
        targets,
        timeout,
        max_body_bytes,
    )
}

proof fn lemma_targets_count(name: Seq<char>, urls: Seq<Seq<char>>)
    ensures
        targets_of(name, urls) matches Ok(targets) ==> targets.len() == urls.len(),
    decreases urls.len(),
{
    if urls.len() > 0 {
        lemma_targets_count(name, urls.drop_last());
    }
}

/// Puts a route behind all whose prefix is at least as long.
pub fn insert_route(routes: &mut Vec<Route>, route: Route)
    requires
        longest_first(route_views(old(routes)@)),
    ensures
        forall|listed: Seq<RouteView>|
            arranged(listed, route_views(old(routes)@)) ==> #[trigger] arranged(
                listed.push(route@),
                route_views(final(routes)@),
            ),
        longest_first(route_views(final(routes)@)),
{
    let length: usize = route.prefix_len();
    let mut at: usize = 0;
    while at < routes.len() && routes[at].prefix_len() >= length
        invariant
            at <= routes@.len(),
            length == prefix_bytes(route@),
            forall|j: int| 0 <= j < at ==> prefix_bytes((#[trigger] routes@[j])@) >= length,
        decreases routes@.len() - at,
    {
        at += 1;
    }
    let ghost before = route_views(routes@);
    routes.insert(at, route);
    proof {
        let after = route_views(routes@);
        assert(after =~= before.insert(at as int, route@));
        assert forall|j: int| 0 <= j < at implies prefix_bytes(#[trigger] before[j]) >= length by {
            assert(before[j] == old(routes)@[j]@);
        }
        assert(at < before.len() ==> prefix_bytes(before[at as int]) < length);
        lemma_insert_keeps_longest_first(before, at as int, route@);
        assert forall|listed: Seq<RouteView>| arranged(listed, before) implies #[trigger] arranged(
            listed.push(route@),
            after,
        ) by {
            lemma_insert_arranges(listed, before, at as int, route@);
        }
    }
}

proof fn lemma_insert_keeps_longest_first(routes: Seq<RouteView>, at: int, r: RouteView)
    requires
        longest_first(routes),
        0 <= at <= routes.len(),
        forall|j: int| 0 <= j < at ==> prefix_bytes(#[trigger] routes[j]) >= prefix_bytes(r),
        at < routes.len() ==> prefix_bytes(routes[at]) < prefix_bytes(r),
    ensures
        longest_first(routes.insert(at, r)),
{
    let after = routes.insert(at, r);
    assert forall|i: int, j: int| 0 <= i <= j < after.len() implies prefix_bytes(
        #[trigger] after[i],
    ) >= prefix_bytes(#[trigger] after[j]) by {
        let oi = if i < at {
            i
        } else {
            i - 1
        };
        let oj = if j < at {
            j
        } else {
            j - 1
        };
        if i == at && j == at {
        } else if i == at {
            assert(prefix_bytes(routes[at]) >= prefix_bytes(routes[oj]));
        } else if j == at {
            assert(after[i] == routes[i]);
        } else {
            assert(after[i] == routes[oi]);
            assert(after[j] == routes[oj]);
        }
    }
}

proof fn lemma_none_of_length(routes: Seq<RouteView>, length: nat)
    requires
        forall|i: int| 0 <= i < routes.len() ==> prefix_bytes(#[trigger] routes[i]) != length,
    ensures
        of_length(routes, length) == Seq::<RouteView>::empty(),
    decreases routes.len(),
{
    reveal(Seq::filter);
    if routes.len() > 0 {
        assert forall|i: int| 0 <= i < routes.drop_last().len() implies prefix_bytes(
            #[trigger] routes.drop_last()[i],
        ) != length by {
            assert(routes.drop_last()[i] == routes[i]);
        }
        lemma_none_of_length(routes.drop_last(), length);
    } else {
        assert(of_length(routes, length) =~= Seq::empty());
    }
}

proof fn lemma_insert_arranges(listed: Seq<RouteView>, routes: Seq<RouteView>, at: int, r: RouteView)
    requires
        arranged(listed, routes),
        0 <= at <= routes.len(),
        forall|j: int| 0 <= j < at ==> prefix_bytes(#[trigger] routes[j]) >= prefix_bytes(r),
        at < routes.len() ==> prefix_bytes(routes[at]) < prefix_bytes(r),
    ensures
        arranged(listed.push(r), routes.insert(at, r)),
{
    lemma_insert_keeps_longest_first(routes, at, r);
    assert forall|length: nat| #[trigger] of_length(routes.insert(at, r), length) == of_length(
        listed.push(r),
        length,
    ) by {
        let pred = |x: RouteView| prefix_bytes(x) == length;
        let head = routes.take(at);
        let tail = routes.skip(at);
        assert(routes =~= head + tail);
        assert(routes.insert(at, r) =~= head.push(r) + tail);
        Seq::filter_distributes_over_add(head, tail, pred);
        Seq::filter_distributes_over_add(head.push(r), tail, pred);
        head.lemma_filter_push(r, pred);
        listed.lemma_filter_push(r, pred);
        assert(of_length(routes, length) == of_length(listed, length));
        if prefix_bytes(r) == length {
            assert forall|i: int| 0 <= i < tail.len() implies prefix_bytes(#[trigger] tail[i])
                != length by {
                assert(tail[i] == routes[at + i]);
                assert(prefix_bytes(routes[at]) >= prefix_bytes(routes[at + i]));
            }
            lemma_none_of_length(tail, length);
            assert(of_length(routes, length) =~= head.filter(pred));
        }
        assert(of_length(routes.insert(at, r), length) =~= of_length(listed.push(r), length));
    }
}

/// The routes that the upstreams of a configuration file stand for, longest prefix first.
pub fn parse_upstreams(entries: &Vec<(String, UpstreamConfig)>) -> (r: Result<
    Vec<Route>,
    AppError,
>)
    ensures
        upstreams_outcome(entries@, r),
{
    if entries.is_empty() {
        return Err(
            AppError::Config(
                String::from_str("configuration must include at least one upstream"),
            ),
        );
    }
    let mut seen_prefixes: Vec<String> = Vec::new();
    let mut routes: Vec<Route> = Vec::new();
    let ghost mut listed: Seq<RouteView> = Seq::empty();
    assert(route_views(routes@) =~= Seq::empty());
    let mut i: usize = 0;
    while i < entries.len()
        invariant
            i <= entries@.len(),
            entries@.len() > 0,
            routes_of(entries@.take(i as int)) == Ok::<Seq<RouteView>, Seq<char>>(listed),
            arranged(listed, route_views(routes@)),
            seen_prefixes@.len() == listed.len(),
            forall|j: int|
                0 <= j < listed.len() ==> (#[trigger] seen_prefixes@[j])@ == listed[j].prefix,
        decreases entries@.len() - i,
    {
        let ghost seen = entries@.take(i + 1);
        assert(seen.drop_last() =~= entries@.take(i as int));
        assert(seen.last() == entries@[i as int]);
        let name = entries[i].0.as_str();
        let prefix = match paths::derive_gate_prefix(name) {
            Ok(prefix) => prefix,
            Err(e) => {
                return Err(e);
            },
        };
        let mut k: usize = 0;
        while k < seen_prefixes.len()
            invariant
                k <= seen_prefixes@.len() == listed.len(),
                i < entries@.len(),
                seen == entries@.take(i + 1),
                name@ == seen.last().0@,
                prefix@ == paths::gate_prefix(name@),
                routes_of(seen.drop_last()) == Ok::<Seq<RouteView>, Seq<char>>(listed),
                seen.len() > 0,
                forall|j: int|
                    0 <= j < listed.len() ==> (#[trigger] seen_prefixes@[j])@ == listed[j].prefix,
                forall|j: int| 0 <= j < k ==> (#[trigger] seen_prefixes@[j])@ != prefix@,
            decreases seen_prefixes@.len() - k,
        {
            if text::same_text(seen_prefixes[k].as_str(), prefix.as_str()) {
                let mut reason = String::from_str("duplicate upstream prefix '");
                reason.append(prefix.as_str());
                reason.append("'");
                proof {
                    assert(listed[k as int].prefix == prefix@);
                    assert(has_prefix(listed, prefix@));
                    lemma_routes_error_stays(entries@, i + 1);
                }
                return Err(AppError::Config(reason));
            }
            k += 1;
        }
        assert(!has_prefix(listed, prefix@)) by {
            if has_prefix(listed, prefix@) {
                let j = choose|j: int|
                    0 <= j < listed.len() && (#[trigger] listed[j]).prefix == prefix@;
                assert(seen_prefixes@[j]@ == listed[j].prefix);
            }
        }
        match parse_upstream(name, &entries[i].1) {
            Ok(route) => {
                proof {
                    listed = listed.push(route@);
                }
                insert_route(&mut routes, route);
            },
            Err(e) => {
                proof {
                    lemma_routes_error_stays(entries@, i + 1);
                }
                return Err(e);
            },
        }
        seen_prefixes.push(prefix);
        i += 1;
    }
    assert(entries@.take(entries@.len() as int) =~= entries@);
    Ok(routes)
}

proof fn lemma_routes_error_stays(entries: Seq<(String, UpstreamConfig)>, n: int)
    requires
        0 <= n <= entries.len(),
        routes_of(entries.take(n)) is Err,
    ensures
        routes_of(entries) == routes_of(entries.take(n)),
    decreases entries.len() - n,
{
    if n < entries.len() {
        assert(entries.take(n + 1).drop_last() =~= entries.take(n));
        lemma_routes_error_stays(entries, n + 1);
    } else {
        assert(entries.take(n) =~= entries);
    }
}

/// Runtime configuration. `A` is the type of socket addresses.
#[derive(Debug)]
pub struct Config<A> {
    pub bind_addr: A,
    pub metrics_path: String,
    pub upstreams: Vec<Route>,
}

impl FileConfig {
    /// The file with the path of the metrics endpoint set, where one is given.
    pub fn with_metrics_path(self, given: Option<String>) -> (r: FileConfig)
        ensures
            r.bind_addr == self.bind_addr,
            r.upstreams == self.upstreams,
            r.metrics_path == if given is Some {
                given
            } else {
                self.metrics_path
            },
    {
        let metrics_path = match given {
            Some(path) => Some(path),
            None => self.metrics_path,
        };
        FileConfig { bind_addr: self.bind_addr, metrics_path, upstreams: self.upstreams }
    }

    /// The text of the socket address to listen on.
    pub open spec fn bind_text(self) -> Seq<char> {
        match self.bind_addr {
            Some(text) => text@,
            None => DEFAULT_BIND_ADDR@,
        }
    }

    /// The path of the metrics endpoint, with a leading slash.
    pub open spec fn metrics_text(self) -> Seq<char> {
        match self.metrics_path {
            Some(path) => paths::rooted(path@),
            None => paths::rooted(DEFAULT_METRICS_PATH@),
        }
    }
}

/// What a configuration file comes to once its socket address has been read: a configuration,
/// or the first thing that is wrong with the file.
pub open spec fn config_outcome<A>(
    raw: FileConfig,
    bind_addr: Result<A, String>,
    r: Result<Config<A>, AppError>,
) -> bool {
    match bind_addr {
        Err(reason) => r matches Err(e) && e.is_config("invalid bind_addr: "@ + reason@),
        Ok(addr) => match r {
            Ok(config) => {
                &&& config.bind_addr == addr
                &&& config.metrics_path@ == raw.metrics_text()
                &&& upstreams_outcome(raw.upstreams@, Ok(config.upstreams))
            },
            Err(e) => upstreams_outcome(raw.upstreams@, Err(e)),
        },
    }
}

/// Some reading of the file's socket address leads to the outcome.
pub open spec fn raw_outcome<A, P: FnOnce(String) -> Result<A, String>>(
    raw: FileConfig,
    parse_addr: P,
    r: Result<Config<A>, AppError>,
) -> bool {
    exists|text: String, bind_addr: Result<A, String>|
        {
            &&& text@ == raw.bind_text()
            &&& #[trigger] call_ensures(parse_addr, (text,), bind_addr)
            &&& config_outcome(raw, bind_addr, r)
        }
}

impl<A> Config<A> {
    /// The configuration that a file stands for, given what its socket address reads as.
    pub fn assemble(raw: FileConfig, bind_addr: Result<A, String>) -> (r: Result<
        Config<A>,
        AppError,
    >)
        ensures
            config_outcome(raw, bind_addr, r),
    {
        let bind_addr = match bind_addr {
            Ok(addr) => addr,
            Err(message) => {
                let mut reason = String::from_str("invalid bind_addr: ");
                reason.append(message.as_str());
                return Err(AppError::Config(reason));
            },
        };
        let given = match raw.metrics_path {
            Some(path) => path,
            None => DEFAULT_METRICS_PATH.to_owned(),
        };
        let mut metrics_path = String::new();
        if !text::has_prefix(given.as_str(), "/") {
            metrics_path.push('/');
        }
        metrics_path.append(given.as_str());
        proof {
            reveal_strlit("/");
            assert("/"@ =~= seq!['/']);
            assert(given@.len() > 0 ==> given@.subrange(0, 1)[0] == given@[0]);
            assert(given@.len() > 0 && given@[0] == '/' ==> given@.subrange(0, 1) =~= seq!['/']);
            assert(metrics_path@ =~= paths::rooted(given@));
        }
        match parse_upstreams(&raw.upstreams) {
            Ok(upstreams) => Ok(Config { bind_addr, metrics_path, upstreams }),
            Err(e) => Err(e),
        }
    }

    /// The configuration that a file stands for. `parse_addr` reads the file's socket address,
    /// or the default one, and gives the message of the error where it is none.
    pub fn from_raw<P: FnOnce(String) -> Result<A, String>>(raw: FileConfig, parse_addr: P) -> (r:
        Result<Config<A>, AppError>)
        requires
            forall|text: String| #[trigger] call_requires(parse_addr, (text,)),
        ensures
            raw_outcome(raw, parse_addr, r),
    {
        let text = match &raw.bind_addr {
            Some(text) => text.clone(),
            None => DEFAULT_BIND_ADDR.to_owned(),
        };
        let ghost handed = text;
        let bind_addr = parse_addr(text);
        let ghost read = bind_addr;
        assert(handed@ == raw.bind_text() && call_ensures(parse_addr, (handed,), read));
        Config::assemble(raw, bind_addr)
    }

    /// Load configuration directly from a YAML string. `parse_yaml` reads the file, and gives
    /// the message of the error where it is not a configuration file.
    pub fn from_yaml_str<
        Y: FnOnce(&str) -> Result<FileConfig, String>,
        P: FnOnce(String) -> Result<A, String>,
    >(yaml: &str, parse_yaml: Y, parse_addr: P) -> (r: Result<Config<A>, AppError>)
        requires
            call_requires(parse_yaml, (yaml,)),
            forall|text: String| #[trigger] call_requires(parse_addr, (text,)),
        ensures
            exists|file: Result<FileConfig, String>|
                {
                    &&& #[trigger] call_ensures(parse_yaml, (yaml,), file)
                    &&& match file {
                        Err(reason) => r matches Err(e) && e.is_config(
                            "failed to parse YAML: "@ + reason@,
                        ),
                        Ok(raw) => raw_outcome(raw, parse_addr, r),
                    }
                },
    {
        let file = parse_yaml(yaml);
        let ghost read = file;
        assert(call_ensures(parse_yaml, (yaml,), read));
        match file {
            Ok(raw) => Config::from_raw(raw, parse_addr),
            Err(message) => {
                let mut reason = String::from_str("failed to parse YAML: ");
                reason.append(message.as_str());
                Err(AppError::Config(reason))
            },
        }
    }

    /// The path of the configuration file, given the value of `CONFIG_PATH`.
    pub fn file_path(config_path: Option<String>) -> (r: String)
        ensures
            r@ == (match config_path {
                Some(path) => path@,
                None => DEFAULT_CONFIG_PATH@,
            }),
    {
        match config_path {
            Some(path) => path,
            None => DEFAULT_CONFIG_PATH.to_owned(),
        }
    }

    /// Summarise configured upstreams for human-friendly logging.
    pub fn route_summary(&self) -> (r: Vec<String>)
        ensures
            r@.len() == self.upstreams@.len(),
            forall|i: int|
                0 <= i < r@.len() ==> (#[trigger] r@[i])@ == self.upstreams@[i]@.summary_text(),
    {
        let mut lines: Vec<String> = Vec::new();
        let mut i: usize = 0;
        while i < self.upstreams.len()
            invariant
                i <= self.upstreams@.len(),
                lines@.len() == i,
                forall|j: int|
                    0 <= j < i ==> (#[trigger] lines@[j])@ == self.upstreams@[j]@.summary_text(),
            decreases self.upstreams@.len() - i,
        {
            lines.push(self.upstreams[i].summary());
            i += 1;
        }
        lines
    }
}

/// No two routes of the list have one prefix.
pub open spec fn distinct_prefixes(routes: Seq<RouteView>) -> bool {
    forall|i: int, j: int|
        0 <= i < j < routes.len() ==> (#[trigger] routes[i]).prefix != (#[trigger] routes[j]).prefix
}

/// A configuration that is accepted has one route per upstream, with the name, limits and number
/// of targets that the upstream gives or the defaults, none of them zero, mounted at the
/// route prefix of its name; and no two routes have one prefix.
pub proof fn accepted_upstreams_have_their_routes(
    entries: Seq<(String, UpstreamConfig)>,
    listed: Seq<RouteView>,
)
    requires
        routes_of(entries) == Ok::<Seq<RouteView>, Seq<char>>(listed),
    ensures
        listed.len() == entries.len(),
        distinct_prefixes(listed),
        forall|i: int|
            0 <= i < listed.len() ==> {
                let upstream = entries[i].1;
                &&& (#[trigger] listed[i]).name == entries[i].0@
                &&& listed[i].prefix == paths::gate_prefix(entries[i].0@)
                &&& listed[i].timeout == route::duration_of_millis(timeout_of(upstream))
                &&& timeout_of(upstream) > 0
                &&& listed[i].max_body_bytes == body_limit_of(upstream)
                &&& body_limit_of(upstream) > 0
                &&& listed[i].targets.len() == upstream.urls@.len()
                &&& upstream.urls@.len() > 0
                &&& listed[i].cursor == 0
            },
    decreases entries.len(),
{
    if entries.len() > 0 {
        let head = entries.drop_last();
        let name = entries.last().0@;
        let before = routes_of(head)->Ok_0;
        accepted_upstreams_have_their_routes(head, before);
        lemma_targets_count(name, texts(entries.last().1.urls@));
        assert(listed.drop_last() =~= before);
        assert(!has_prefix(before, paths::gate_prefix(name)));
        assert forall|i: int, j: int| 0 <= i < j < listed.len() implies (#[trigger] listed[i]).prefix
            != (#[trigger] listed[j]).prefix by {
            assert(listed[i] == before[i]);
            if j < before.len() {
                assert(listed[j] == before[j]);
            }
        }
    }
}

/// A configuration with two upstreams whose names come to one prefix is refused.
pub proof fn upstreams_of_one_prefix_are_refused(
    entries: Seq<(String, UpstreamConfig)>,
    first: int,
    second: int,
)
    requires
        0 <= first < second < entries.len(),
        paths::gate_prefix(entries[first].0@) == paths::gate_prefix(entries[second].0@),
    ensures
        routes_of(entries) is Err,
{
    if let Ok(listed) = routes_of(entries) {
        accepted_upstreams_have_their_routes(entries, listed);
        assert(listed[first].prefix == listed[second].prefix);
    }
}

proof fn lemma_filter_keeps_count(s: Seq<RouteView>, pred: spec_fn(RouteView) -> bool, x: RouteView)
    requires
        pred(x),
    ensures
        s.filter(pred).to_multiset().count(x) == s.to_multiset().count(x),
    decreases s.len(),
{
    broadcast use vstd::seq_lib::group_to_multiset_ensures;

    reveal(Seq::filter);
    if s.len() > 0 {
        let head = s.drop_last();
        lemma_filter_keeps_count(head, pred, x);
        assert(s =~= head.push(s.last()));
    }
}

/// Arranging routes for matching loses none of them and adds none.
pub proof fn arranging_keeps_every_route(listed: Seq<RouteView>, routes: Seq<RouteView>)
    requires
        arranged(listed, routes),
    ensures
        routes.to_multiset() == listed.to_multiset(),
        routes.len() == listed.len(),
{
    broadcast use vstd::seq_lib::group_to_multiset_ensures;

    assert forall|x: RouteView| #[trigger] routes.to_multiset().count(x)
        == listed.to_multiset().count(x) by {
        let length = prefix_bytes(x);
        let pred = |r: RouteView| prefix_bytes(r) == length;
        lemma_filter_keeps_count(routes, pred, x);
        lemma_filter_keeps_count(listed, pred, x);
        assert(of_length(routes, length) == of_length(listed, length));
    }
    assert(routes.to_multiset() =~= listed.to_multiset());
    assert(routes.to_multiset().len() == listed.to_multiset().len());
}

/// Arranging routes for matching leaves their prefixes distinct.
pub proof fn arranging_keeps_prefixes_distinct(listed: Seq<RouteView>, routes: Seq<RouteView>)
    requires
        arranged(listed, routes),
        distinct_prefixes(listed),
    ensures
        distinct_prefixes(routes),
{
    broadcast use vstd::seq_lib::group_to_multiset_ensures;

    arranging_keeps_every_route(listed, routes);
    assert(listed.no_duplicates());
    listed.lemma_multiset_has_no_duplicates();
    assert forall|x: RouteView| routes.to_multiset().contains(x) implies routes.to_multiset().count(x)
        == 1 by {
        assert(listed.to_multiset().contains(x));
    }
    routes.lemma_multiset_has_no_duplicates_conv();
    assert forall|i: int, j: int| 0 <= i < j < routes.len() implies (#[trigger] routes[i]).prefix
        != (#[trigger] routes[j]).prefix by {
        assert(routes.contains(routes[i]) && routes.contains(routes[j]));
        assert(listed.to_multiset().count(routes[i]) > 0 && listed.to_multiset().count(routes[j])
            > 0);
        let a = choose|a: int| 0 <= a < listed.len() && listed[a] == routes[i];
        let b = choose|b: int| 0 <= b < listed.len() && listed[b] == routes[j];
        assert(a != b);
        if a < b {
            assert(listed[a].prefix != listed[b].prefix);
        } else {
            assert(listed[b].prefix != listed[a].prefix);
        }
    }
}

/// One text comes before another in the order of their characters.
pub open spec fn comes_before(a: Seq<char>, b: Seq<char>) -> bool
    decreases a.len(),
{
    if b.len() == 0 {
        false
    } else if a.len() == 0 {
        true
    } else if a[0] != b[0] {
        a[0] < b[0]
    } else {
        comes_before(a.drop_first(), b.drop_first())
    }
}

/// The upstreams of a configuration file stand in the order of their names, each name once.
pub open spec fn in_name_order(entries: Seq<(String, UpstreamConfig)>) -> bool {
    forall|i: int, j: int|
        0 <= i < j < entries.len() ==> comes_before(
            (#[trigger] entries[i]).0@,
            (#[trigger] entries[j]).0@,
        )
}

/// Of the upstreams of a configuration file in name order, the routes with prefixes of one length
/// stand in name order too.
pub proof fn routes_of_one_length_stand_in_name_order(
    entries: Seq<(String, UpstreamConfig)>,
    listed: Seq<RouteView>,
    routes: Seq<RouteView>,
    first: int,
    second: int,
)
    requires
        in_name_order(entries),
        routes_of(entries) == Ok::<Seq<RouteView>, Seq<char>>(listed),
        arranged(listed, routes),
        0 <= first < second < routes.len(),
        prefix_bytes(routes[first]) == prefix_bytes(routes[second]),
    ensures
        comes_before(routes[first].name, routes[second].name),
{
    let length = prefix_bytes(routes[first]);
    let pred = |r: RouteView| prefix_bytes(r) == length;
    accepted_upstreams_have_their_routes(entries, listed);
    lemma_filter_keeps_pairs(routes, pred, first, second);
    let (a, b) = choose|a: int, b: int|
        0 <= a < b < routes.filter(pred).len() && #[trigger] routes.filter(pred)[a]
            == routes[first] && #[trigger] routes.filter(pred)[b] == routes[second];
    assert(of_length(routes, length) == of_length(listed, length));
    assert(listed.filter(pred) == routes.filter(pred));
    lemma_filtered_pairs_were_there(listed, pred, a, b);
    let (i, j) = choose|i: int, j: int|
        0 <= i < j < listed.len() && #[trigger] listed[i] == listed.filter(pred)[a]
            && #[trigger] listed[j] == listed.filter(pred)[b];
    assert(listed[i].name == entries[i].0@);
    assert(listed[j].name == entries[j].0@);
}

proof fn lemma_filter_keeps_one(s: Seq<RouteView>, pred: spec_fn(RouteView) -> bool, i: int)
    requires
        0 <= i < s.len(),
        pred(s[i]),
    ensures
        exists|a: int| 0 <= a < s.filter(pred).len() && #[trigger] s.filter(pred)[a] == s[i],
{
    s.lemma_filter_contains(pred, i);
    assert(s.filter(pred).contains(s[i]));
}

proof fn lemma_filter_keeps_pairs(
    s: Seq<RouteView>,
    pred: spec_fn(RouteView) -> bool,
    i: int,
    j: int,
)
    requires
        0 <= i < j < s.len(),
        pred(s[i]),
        pred(s[j]),
    ensures
        exists|a: int, b: int|
            0 <= a < b < s.filter(pred).len() && #[trigger] s.filter(pred)[a] == s[i]
                && #[trigger] s.filter(pred)[b] == s[j],
    decreases s.len(),
{
    reveal(Seq::filter);
    let head = s.drop_last();
    let kept = head.filter(pred);
    if j < s.len() - 1 {
        lemma_filter_keeps_pairs(head, pred, i, j);
        let (a, b) = choose|a: int, b: int|
            0 <= a < b < kept.len() && #[trigger] kept[a] == head[i] && #[trigger] kept[b]
                == head[j];
        assert(s.filter(pred)[a] == s[i]);
        assert(s.filter(pred)[b] == s[j]);
    } else {
        lemma_filter_keeps_one(head, pred, i);
        let a = choose|a: int| 0 <= a < kept.len() && #[trigger] kept[a] == head[i];
        assert(s.filter(pred) == kept.push(s.last()));
        assert(s.filter(pred)[a] == s[i]);
        assert(s.filter(pred)[kept.len() as int] == s[j]);
    }
}

proof fn lemma_filtered_pairs_were_there(
    s: Seq<RouteView>,
    pred: spec_fn(RouteView) -> bool,
    a: int,
    b: int,
)
    requires
        0 <= a < b < s.filter(pred).len(),
    ensures
        exists|i: int, j: int|
            0 <= i < j < s.len() && #[trigger] s[i] == s.filter(pred)[a] && #[trigger] s[j]
                == s.filter(pred)[b],
    decreases s.len(),
{
    reveal(Seq::filter);
    let head = s.drop_last();
    let kept = head.filter(pred);
    if b < kept.len() {
        lemma_filtered_pairs_were_there(head, pred, a, b);
        let (i, j) = choose|i: int, j: int|
            0 <= i < j < head.len() && #[trigger] head[i] == kept[a] && #[trigger] head[j]
                == kept[b];
        assert(s[i] == s.filter(pred)[a]);
        assert(s[j] == s.filter(pred)[b]);
    } else {
        assert(kept.contains(kept[a]));
        head.lemma_filter_contains_rev(pred, kept[a]);
        let i = choose|i: int| 0 <= i < head.len() && #[trigger] head[i] == kept[a];
        assert(s[i] == s.filter(pred)[a]);
        assert(s[s.len() - 1] == s.filter(pred)[b]);
    }
}

/// The texts of a list of strings are as many as the strings, each at its place.
pub proof fn texts_keep_every_string(list: Seq<String>)
    ensures
        texts(list).len() == list.len(),
        forall|i: int| 0 <= i < list.len() ==> #[trigger] texts(list)[i] == list[i]@,
{
}

/// The views of a list of routes are as many as the routes, each at its place.
pub proof fn route_views_keep_every_route(routes: Seq<Route>)
    ensures
        route_views(routes).len() == routes.len(),
        forall|i: int| 0 <= i < routes.len() ==> #[trigger] route_views(routes)[i] == routes[i]@,
{
}

/// A URL stands for a target exactly if it parses, names a scheme and a host, and has no query.
/// The target has the scheme and the host of the URL, and its path without slashes at the end, or
/// the root where it has none.
pub proof fn url_stands_for_its_parts(
    name: Seq<char>,
    url: Seq<char>,
    parts: UriView,
    body: Seq<char>,
    slashes: nat,
)
    requires
        uri::parsed_uri(url) == Ok::<UriView, Seq<char>>(parts),
        parts.path == body + text::run_of('/', slashes),
        body.len() > 0 ==> body.last() != '/',
    ensures
        target_of(name, url) is Ok <==> parts.scheme is Some && parts.authority is Some
            && parts.query is None,
        target_of(name, url) is Ok ==> {
            let target = target_of(name, url)->Ok_0;
            &&& Some(target.scheme) == parts.scheme
            &&& Some(target.authority) == parts.authority
            &&& body.len() > 0 ==> target.base_path == body
            &&& body.len() == 0 && slashes <= 1 ==> target.base_path == "/"@
            &&& body.len() == 0 && slashes > 1 ==> target.base_path == ""@
        },
        target_of_parsed(name, url, Ok(parts)) == target_of(name, url),
{
    paths::base_path_is_the_trimmed_path(body, slashes);
}

/// What is said of a URL that stands for no target: that it does not parse, and why; else that
/// its scheme is missing, else its host, else that it has a query.
pub proof fn refused_url_is_complained_about(
    name: Seq<char>,
    url: Seq<char>,
    reason: Seq<char>,
    parts: UriView,
)
    ensures
        target_of_parsed(name, url, Err(reason)) == Err::<TargetView, Seq<char>>(
            "invalid url '"@ + url + "' for '"@ + name + "': "@ + reason,
        ),
        parts.scheme is None ==> target_of_parsed(name, url, Ok(parts)) == Err::<
            TargetView,
            Seq<char>,
        >("upstream '"@ + name + "' url is missing a scheme"@),
        parts.scheme is Some && parts.authority is None ==> target_of_parsed(name, url, Ok(parts))
            == Err::<TargetView, Seq<char>>("upstream '"@ + name + "' url is missing a host"@),
        parts.scheme is Some && parts.authority is Some && parts.query is Some ==> target_of_parsed(
            name,
            url,
            Ok(parts),
        ) == Err::<TargetView, Seq<char>>(
            "upstream '"@ + name + "' url must not include a query string"@,
        ),
        uri::parsed_uri(url) == Err::<UriView, Seq<char>>(reason) ==> target_of(name, url)
            == target_of_parsed(name, url, Err(reason)),
{
}

/// The URLs of an upstream stand for targets exactly if each of them does, and then for as many,
/// each at the place of its URL.
pub proof fn each_url_stands_for_its_target(name: Seq<char>, urls: Seq<Seq<char>>)
    ensures
        targets_of(name, urls) is Ok <==> forall|i: int|
            0 <= i < urls.len() ==> target_of(name, #[trigger] urls[i]) is Ok,
        targets_of(name, urls) is Ok ==> targets_of(name, urls)->Ok_0.len() == urls.len(),
        targets_of(name, urls) is Ok ==> forall|i: int|
            0 <= i < urls.len() ==> target_of(name, urls[i]) == Ok::<TargetView, Seq<char>>(
                #[trigger] targets_of(name, urls)->Ok_0[i],
            ),
    decreases urls.len(),
{
    if urls.len() > 0 {
        let head = urls.drop_last();
        each_url_stands_for_its_target(name, head);
        if targets_of(name, urls) is Ok {
            assert forall|i: int| 0 <= i < urls.len() implies target_of(name, #[trigger] urls[i])
                == Ok::<TargetView, Seq<char>>(targets_of(name, urls)->Ok_0[i]) by {
                if i < head.len() {
                    assert(head[i] == urls[i]);
                    assert(targets_of(name, head)->Ok_0[i] == targets_of(name, urls)->Ok_0[i]);
                }
            }
        } else if targets_of(name, head) is Err {
            let i = choose|i: int|
                0 <= i < head.len() && !(target_of(name, #[trigger] head[i]) is Ok);
            assert(urls[i] == head[i]);
        } else {
            assert(urls[urls.len() - 1] == urls.last());
        }
    }
}

/// The complaint about the URLs of an upstream is that about the first that stands for no target.
pub proof fn first_bad_url_is_complained_about(name: Seq<char>, urls: Seq<Seq<char>>, bad: int)
    requires
        0 <= bad < urls.len(),
        target_of(name, urls[bad]) is Err,
        forall|i: int| 0 <= i < bad ==> target_of(name, #[trigger] urls[i]) is Ok,
    ensures
        targets_of(name, urls) == Err::<Seq<TargetView>, Seq<char>>(
            target_of(name, urls[bad])->Err_0,
        ),
    decreases urls.len(),
{
    let head = urls.drop_last();
    if bad < head.len() {
        assert forall|i: int| 0 <= i < bad implies target_of(name, #[trigger] head[i]) is Ok by {
            assert(head[i] == urls[i]);
        }
        first_bad_url_is_complained_about(name, head, bad);
    } else {
        each_url_stands_for_its_target(name, head);
        assert forall|i: int| 0 <= i < head.len() implies target_of(
            name,
            #[trigger] head[i],
        ) is Ok by {
            assert(head[i] == urls[i]);
        }
    }
}

/// The timeout of a route is the span of exactly the milliseconds that its upstream gives, and of
/// 300000 milliseconds where it gives none; its body limit is exactly the number of bytes that
/// the upstream gives, and 10 MiB where it gives none.
pub proof fn limits_are_those_that_are_given(name: Seq<char>, upstream: UpstreamConfig)
    requires
        route_of(name, upstream) is Ok,
    ensures
        upstream.timeout_ms is Some ==> route_of(name, upstream)->Ok_0.timeout
            == route::duration_of_millis(upstream.timeout_ms->Some_0),
        upstream.timeout_ms is None ==> route_of(name, upstream)->Ok_0.timeout
            == route::duration_of_millis(300_000),
        upstream.max_body_bytes is Some ==> route_of(name, upstream)->Ok_0.max_body_bytes
            == upstream.max_body_bytes->Some_0,
        upstream.max_body_bytes is None ==> route_of(name, upstream)->Ok_0.max_body_bytes
            == 10_485_760,
{
}

/// An upstream stands for a route exactly if it gives no limit of zero, and at least one URL, and
/// each of its URLs stands for a target.
pub proof fn upstream_stands_for_a_route(name: Seq<char>, upstream: UpstreamConfig)
    ensures
        route_of(name, upstream) is Ok <==> {
            &&& upstream.timeout_ms != Some(0u64)
            &&& upstream.max_body_bytes != Some(0usize)
            &&& upstream.urls@.len() > 0
            &&& forall|i: int|
                0 <= i < upstream.urls@.len() ==> target_of(
                    name,
                    (#[trigger] upstream.urls@[i])@,
                ) is Ok
        },
{
    let urls = texts(upstream.urls@);
    each_url_stands_for_its_target(name, urls);
    if forall|i: int|
        0 <= i < upstream.urls@.len() ==> target_of(name, (#[trigger] upstream.urls@[i])@) is Ok {
        assert forall|i: int| 0 <= i < urls.len() implies target_of(name, #[trigger] urls[i]) is Ok by {
            assert(urls[i] == upstream.urls@[i]@);
        }
    } else {
        let i = choose|i: int|
            0 <= i < upstream.urls@.len() && !(target_of(
                name,
                (#[trigger] upstream.urls@[i])@,
            ) is Ok);
        assert(urls[i] == upstream.urls@[i]@);
    }
}

/// The route of an upstream bears its name, is mounted under the reserved base path at the segment
/// of that name, starts at its first target, and has one target per URL, each at the place of its
/// URL.
pub proof fn route_has_the_targets_of_its_urls(name: Seq<char>, upstream: UpstreamConfig)
    requires
        route_of(name, upstream) is Ok,
    ensures
        ({
            let r = route_of(name, upstream)->Ok_0;
            &&& r.name == name
            &&& paths::segment_of(name).len() > 0 ==> r.prefix == "/gate/"@ + paths::segment_of(
                name,
            )
            &&& paths::segment_of(name).len() == 0 ==> r.prefix == "/gate"@
            &&& r.cursor == 0
            &&& r.targets.len() == upstream.urls@.len()
        }),
        forall|i: int|
            0 <= i < upstream.urls@.len() ==> target_of(name, (#[trigger] upstream.urls@[i])@)
                == Ok::<TargetView, Seq<char>>(route_of(name, upstream)->Ok_0.targets[i]),
{
    let urls = texts(upstream.urls@);
    each_url_stands_for_its_target(name, urls);
    paths::whole_segment_is_mounted(name);
    assert forall|i: int| 0 <= i < upstream.urls@.len() implies target_of(
        name,
        (#[trigger] upstream.urls@[i])@,
    ) == Ok::<TargetView, Seq<char>>(route_of(name, upstream)->Ok_0.targets[i]) by {
        assert(urls[i] == upstream.urls@[i]@);
        assert(targets_of(name, urls)->Ok_0[i] == route_of(name, upstream)->Ok_0.targets[i]);
    }
}

/// What is said of an upstream that stands for no route: that its timeout is zero, else its body
/// limit, else that it has no URL, else the complaint about its URLs.
pub proof fn refused_upstream_is_complained_about(name: Seq<char>, upstream: UpstreamConfig)
    ensures
        upstream.timeout_ms == Some(0u64) ==> route_of(name, upstream) == Err::<
            RouteView,
            Seq<char>,
        >("upstream '"@ + name + "' timeout_ms must be greater than zero"@),
        upstream.timeout_ms != Some(0u64) && upstream.max_body_bytes == Some(0usize) ==> route_of(
            name,
            upstream,
        ) == Err::<RouteView, Seq<char>>(
            "upstream '"@ + name + "' max_body_bytes must be greater than zero"@,
        ),
        upstream.timeout_ms != Some(0u64) && upstream.max_body_bytes != Some(0usize)
            && upstream.urls@.len() == 0 ==> route_of(name, upstream) == Err::<
            RouteView,
            Seq<char>,
        >("upstream '"@ + name + "' must provide at least one url"@),
        upstream.timeout_ms != Some(0u64) && upstream.max_body_bytes != Some(0usize)
            && upstream.urls@.len() > 0 && targets_of(name, texts(upstream.urls@)) is Err
            ==> route_of(name, upstream) == Err::<RouteView, Seq<char>>(
            targets_of(name, texts(upstream.urls@))->Err_0,
        ),
{
}

/// A list of upstreams stands for routes exactly if each of them does and no two are mounted at
/// one prefix, and then for as many, each at the place of its upstream.
pub proof fn each_upstream_stands_for_its_route(entries: Seq<(String, UpstreamConfig)>)
    ensures
        routes_of(entries) is Ok <==> {
            &&& forall|i: int|
                0 <= i < entries.len() ==> route_of(
                    (#[trigger] entries[i]).0@,
                    entries[i].1,
                ) is Ok
            &&& forall|i: int, j: int|
                0 <= i < j < entries.len() ==> paths::gate_prefix((#[trigger] entries[i]).0@)
                    != paths::gate_prefix((#[trigger] entries[j]).0@)
        },
        routes_of(entries) is Ok ==> routes_of(entries)->Ok_0.len() == entries.len(),
        routes_of(entries) is Ok ==> forall|i: int|
            0 <= i < entries.len() ==> route_of(entries[i].0@, entries[i].1) == Ok::<
                RouteView,
                Seq<char>,
            >(#[trigger] routes_of(entries)->Ok_0[i]),
    decreases entries.len(),
{
    if entries.len() > 0 {
        let head = entries.drop_last();
        let last = entries.len() - 1;
        each_upstream_stands_for_its_route(head);
        assert(entries[last] == entries.last());
        if routes_of(entries) is Ok {
            let listed = routes_of(entries)->Ok_0;
            accepted_upstreams_have_their_routes(entries, listed);
            assert forall|i: int| 0 <= i < entries.len() implies route_of(
                (#[trigger] entries[i]).0@,
                entries[i].1,
            ) == Ok::<RouteView, Seq<char>>(listed[i]) by {
                if i < last {
                    assert(head[i] == entries[i]);
                    assert(routes_of(head)->Ok_0[i] == listed[i]);
                }
            }
            assert forall|i: int, j: int| 0 <= i < j < entries.len() implies paths::gate_prefix(
                (#[trigger] entries[i]).0@,
            ) != paths::gate_prefix((#[trigger] entries[j]).0@) by {
                assert(listed[i].prefix != listed[j].prefix);
            }
        } else if routes_of(head) is Err {
            if forall|i: int|
                0 <= i < head.len() ==> route_of((#[trigger] head[i]).0@, head[i].1) is Ok {
                let (i, j) = choose|i: int, j: int|
                    0 <= i < j < head.len() && paths::gate_prefix((#[trigger] head[i]).0@)
                        == paths::gate_prefix((#[trigger] head[j]).0@);
                assert(entries[i] == head[i] && entries[j] == head[j]);
            } else {
                let i = choose|i: int|
                    0 <= i < head.len() && !(route_of((#[trigger] head[i]).0@, head[i].1) is Ok);
                assert(entries[i] == head[i]);
            }
        } else {
            let routes = routes_of(head)->Ok_0;
            let prefix = paths::gate_prefix(entries.last().0@);
            if has_prefix(routes, prefix) {
                let i = choose|i: int|
                    0 <= i < routes.len() && (#[trigger] routes[i]).prefix == prefix;
                accepted_upstreams_have_their_routes(head, routes);
                assert(head[i] == entries[i]);
                assert(paths::gate_prefix(entries[i].0@) == paths::gate_prefix(entries[last].0@));
            }
        }
    }
}

/// The complaint about a list of upstreams is that about the first that cannot be mounted: that
/// its prefix is taken, else why it stands for no route.
pub proof fn first_bad_upstream_is_complained_about(
    entries: Seq<(String, UpstreamConfig)>,
    bad: int,
)
    requires
        0 <= bad < entries.len(),
        routes_of(entries.take(bad)) is Ok,
        routes_of(entries.take(bad + 1)) is Err,
    ensures
        routes_of(entries) == Err::<Seq<RouteView>, Seq<char>>(
            if exists|i: int|
                0 <= i < bad && paths::gate_prefix((#[trigger] entries[i]).0@)
                    == paths::gate_prefix(entries[bad].0@) {
                "duplicate upstream prefix '"@ + paths::gate_prefix(entries[bad].0@) + "'"@
            } else {
                route_of(entries[bad].0@, entries[bad].1)->Err_0
            },
        ),
{
    let before = entries.take(bad);
    let upto = entries.take(bad + 1);
    let routes = routes_of(before)->Ok_0;
    let prefix = paths::gate_prefix(entries[bad].0@);
    assert(upto.drop_last() =~= before);
    assert(upto.last() == entries[bad]);
    lemma_routes_error_stays(entries, bad + 1);
    accepted_upstreams_have_their_routes(before, routes);
    if has_prefix(routes, prefix) {
        let i = choose|i: int| 0 <= i < routes.len() && (#[trigger] routes[i]).prefix == prefix;
        assert(before[i] == entries[i]);
    } else if exists|i: int|
        0 <= i < bad && paths::gate_prefix((#[trigger] entries[i]).0@) == prefix {
        let i = choose|i: int|
            0 <= i < bad && paths::gate_prefix((#[trigger] entries[i]).0@) == prefix;
        assert(before[i] == entries[i]);
        assert(routes[i].prefix == prefix);
    }
}

/// A configuration that is accepted serves every upstream of the file: among its routes there is
/// one of its name, mounted at its prefix, with the timeout and the body limit that it gives or
/// the defaults, and there are no other routes.
pub proof fn every_upstream_is_served(
    entries: Seq<(String, UpstreamConfig)>,
    routes: Vec<Route>,
    i: int,
)
    requires
        upstreams_outcome(entries, Ok(routes)),
        0 <= i < entries.len(),
    ensures
        routes@.len() == entries.len(),
        exists|k: int|
            {
                &&& 0 <= k < routes@.len()
                &&& (#[trigger] routes@[k])@.name == entries[i].0@
                &&& routes@[k]@.prefix == paths::gate_prefix(entries[i].0@)
                &&& routes@[k]@.timeout == route::duration_of_millis(
                    match entries[i].1.timeout_ms {
                        Some(millis) => millis,
                        None => 300_000,
                    },
                )
                &&& routes@[k]@.max_body_bytes == match entries[i].1.max_body_bytes {
                    Some(limit) => limit,
                    None => 10_485_760,
                }
                &&& routes@[k]@.targets.len() == entries[i].1.urls@.len()
                &&& routes@[k]@.cursor == 0
            },
{
    broadcast use vstd::seq_lib::group_to_multiset_ensures;

    let listed = routes_of(entries)->Ok_0;
    let views = route_views(routes@);
    accepted_upstreams_have_their_routes(entries, listed);
    each_upstream_stands_for_its_route(entries);
    arranging_keeps_every_route(listed, views);
    let r = listed[i];
    assert(listed.contains(r));
    assert(listed.to_multiset().count(r) > 0);
    assert(views.contains(r));
    let k = choose|k: int| 0 <= k < views.len() && views[k] == r;
    assert(views[k] == routes@[k]@);
    assert(route_of(entries[i].0@, entries[i].1) == Ok::<RouteView, Seq<char>>(r));
    limits_are_those_that_are_given(entries[i].0@, entries[i].1);
}

/// A configuration without upstreams is refused, and otherwise it is accepted exactly if its
/// upstreams stand for routes; a refusal says what is wrong.
pub proof fn upstreams_are_accepted_or_complained_about(
    entries: Seq<(String, UpstreamConfig)>,
    r: Result<Vec<Route>, AppError>,
)
    requires
        upstreams_outcome(entries, r),
    ensures
        r is Ok <==> entries.len() > 0 && routes_of(entries) is Ok,
        entries.len() == 0 ==> r->Err_0.is_config(
            "configuration must include at least one upstream"@,
        ),
        entries.len() > 0 && routes_of(entries) is Err ==> r->Err_0.is_config(
            routes_of(entries)->Err_0,
        ),
{
}

/// Of two routes that are arranged for matching, the one with the longer prefix stands first.
pub proof fn longer_prefix_stands_first(
    listed: Seq<RouteView>,
    routes: Seq<RouteView>,
    i: int,
    j: int,
)
    requires
        arranged(listed, routes),
        0 <= i < routes.len(),
        0 <= j < routes.len(),
        utf8::encode_utf8(routes[i].prefix).len() > utf8::encode_utf8(routes[j].prefix).len(),
    ensures
        i < j,
{
    if j <= i {
        assert(prefix_bytes(routes[j]) >= prefix_bytes(routes[i]));
    }
}

/// What a configuration file leaves out has its documented default, and what it gives is kept:
/// the socket address as it stands, the metrics path with a leading slash.
pub proof fn file_gives_or_leaves_to_the_defaults(raw: FileConfig)
    ensures
        raw.bind_addr is Some ==> raw.bind_text() == raw.bind_addr->Some_0@,
        raw.bind_addr is None ==> raw.bind_text() == "0.0.0.0:8080"@,
        raw.metrics_path is None ==> raw.metrics_text() == "/metrics"@,
        raw.metrics_path is Some && "/"@.is_prefix_of(raw.metrics_path->Some_0@)
            ==> raw.metrics_text() == raw.metrics_path->Some_0@,
        raw.metrics_path is Some && !"/"@.is_prefix_of(raw.metrics_path->Some_0@)
            ==> raw.metrics_text() == "/"@ + raw.metrics_path->Some_0@,
        DEFAULT_CONFIG_PATH@ == "config.yaml"@,
{
    reveal_strlit("/");
    reveal_strlit("/metrics");
    assert("/"@ =~= seq!['/']);
    assert("/metrics"@[0] == '/');
    if raw.metrics_path is Some {
        let given = raw.metrics_path->Some_0@;
        if given.len() > 0 {
            assert(given.subrange(0, 1)[0] == given[0]);
            if given[0] == '/' {
                assert("/"@ =~= given.subrange(0, 1));
            }
        }
    }
}

/// A configuration that is accepted listens on the socket address that was read, exposes metrics
/// at the path of the file or the default one, and has the routes of the file; one whose socket
/// address cannot be read is refused for that, and otherwise it is refused only for its
/// upstreams.
pub proof fn configuration_is_what_the_file_says<A>(
    raw: FileConfig,
    bind_addr: Result<A, String>,
    r: Result<Config<A>, AppError>,
)
    requires
        config_outcome(raw, bind_addr, r),
    ensures
        r is Ok <==> bind_addr is Ok && raw.upstreams@.len() > 0 && routes_of(
            raw.upstreams@,
        ) is Ok,
        r is Ok ==> {
            &&& r->Ok_0.bind_addr == bind_addr->Ok_0
            &&& r->Ok_0.metrics_path@ == raw.metrics_text()
            &&& upstreams_outcome(raw.upstreams@, Ok(r->Ok_0.upstreams))
        },
        bind_addr is Err ==> r->Err_0.is_config("invalid bind_addr: "@ + bind_addr->Err_0@),
        bind_addr is Ok && r is Err ==> upstreams_outcome(raw.upstreams@, Err(r->Err_0)),
{
}

/// Where the parser of socket addresses has one answer to the address of the file, or to the
/// default one, that answer decides: it is what the configuration listens on, or why it is
/// refused.
pub proof fn socket_address_is_that_of_the_file<A, P: FnOnce(String) -> Result<A, String>>(
    raw: FileConfig,
    parse_addr: P,
    answer: Result<A, String>,
    r: Result<Config<A>, AppError>,
)
    requires
        raw_outcome(raw, parse_addr, r),
        forall|text: String, given: Result<A, String>| #[trigger]
            call_ensures(parse_addr, (text,), given) && text@ == raw.bind_text() ==> given
                == answer,
    ensures
        config_outcome(raw, answer, r),
{
}

/// Of the upstreams of a configuration file in name order, the routes whose prefixes have as many
/// bytes as one another stand in name order too.
pub proof fn routes_of_as_many_bytes_stand_in_name_order(
    entries: Seq<(String, UpstreamConfig)>,
    listed: Seq<RouteView>,
    routes: Seq<RouteView>,
    first: int,
    second: int,
)
    requires
        in_name_order(entries),
        routes_of(entries) == Ok::<Seq<RouteView>, Seq<char>>(listed),
        arranged(listed, routes),
        0 <= first < second < routes.len(),
        utf8::encode_utf8(routes[first].prefix).len() == utf8::encode_utf8(
            routes[second].prefix,
        ).len(),
    ensures
        comes_before(routes[first].name, routes[second].name),
{
    routes_of_one_length_stand_in_name_order(entries, listed, routes, first, second);
}

/// A URL that has been parsed becomes a target exactly if it names a scheme and a host and has no
/// query, and the target has that scheme, that host, and the path without slashes at its end.
pub proof fn parsed_url_becomes_a_target(
    name: &str,
    url: &str,
    parts: Uri,
    r: Result<Target, AppError>,
    body: Seq<char>,
    slashes: nat,
)
    requires
        call_ensures(target_from, (name, url, Ok(parts)), r),
        parts.path@ == body + text::run_of('/', slashes),
        body.len() > 0 ==> body.last() != '/',
    ensures
        r is Ok <==> parts.scheme is Some && parts.authority is Some && parts.query is None,
        r is Ok ==> {
            &&& r->Ok_0.scheme@ == parts.scheme->Some_0@
            &&& r->Ok_0.authority@ == parts.authority->Some_0@
            &&& body.len() > 0 ==> r->Ok_0.base_path@ == body
            &&& body.len() == 0 && slashes <= 1 ==> r->Ok_0.base_path@ == "/"@
        },
{
    paths::base_path_is_the_trimmed_path(body, slashes);
    assert(r is Ok ==> r->Ok_0@ == (TargetView {
        scheme: r->Ok_0.scheme@,
        authority: r->Ok_0.authority@,
        base_path: r->Ok_0.base_path@,
    }));
}

/// The route that is made of an upstream has exactly the timeout and the body limit that the
/// upstream gives, or the documented defaults, its name, the prefix of that name, and one target
/// per URL. An upstream that gives a limit of zero, or no URL, is refused.
pub proof fn route_is_made_as_configured(
    name: &str,
    upstream: UpstreamConfig,
    r: Result<Route, AppError>,
)
    requires
        call_ensures(parse_upstream, (name, &upstream), r),
    ensures
        r is Ok ==> {
            let route = r->Ok_0@;
            &&& upstream.timeout_ms is Some ==> route.timeout == route::duration_of_millis(
                upstream.timeout_ms->Some_0,
            )
            &&& upstream.timeout_ms is None ==> route.timeout == route::duration_of_millis(300_000)
            &&& upstream.max_body_bytes is Some ==> route.max_body_bytes
                == upstream.max_body_bytes->Some_0
            &&& upstream.max_body_bytes is None ==> route.max_body_bytes == 10_485_760
            &&& route.name == name@
            &&& paths::segment_of(name@).len() > 0 ==> route.prefix == "/gate/"@
                + paths::segment_of(name@)
            &&& route.targets.len() == upstream.urls@.len()
            &&& route.cursor == 0
        },
        r is Ok <==> {
            &&& upstream.timeout_ms != Some(0u64)
            &&& upstream.max_body_bytes != Some(0usize)
            &&& upstream.urls@.len() > 0
            &&& forall|i: int|
                0 <= i < upstream.urls@.len() ==> target_of(
                    name@,
                    (#[trigger] upstream.urls@[i])@,
                ) is Ok
        },
{
    upstream_stands_for_a_route(name@, upstream);
    if r is Ok {
        limits_are_those_that_are_given(name@, upstream);
        route_has_the_targets_of_its_urls(name@, upstream);
    }
}

/// The routes that are made of a list of upstreams are as many, one per upstream, with the
/// timeout and the body limit that it gives or the defaults; and they stand with the longest
/// prefix first.
pub proof fn routes_are_made_as_configured(
    entries: Vec<(String, UpstreamConfig)>,
    r: Result<Vec<Route>, AppError>,
    i: int,
    j: int,
)
    requires
        call_ensures(parse_upstreams, (&entries,), r),
    ensures
        r is Ok <==> entries@.len() > 0 && routes_of(entries@) is Ok,
        r is Ok ==> r->Ok_0@.len() == entries@.len(),
        r is Ok && 0 <= i < j < r->Ok_0@.len() ==> utf8::encode_utf8(r->Ok_0@[i]@.prefix).len()
            >= utf8::encode_utf8(r->Ok_0@[j]@.prefix).len(),
        r is Ok && 0 <= i < entries@.len() ==> exists|k: int|
            {
                &&& 0 <= k < r->Ok_0@.len()
                &&& (#[trigger] r->Ok_0@[k])@.name == entries@[i].0@
                &&& r->Ok_0@[k]@.prefix == paths::gate_prefix(entries@[i].0@)
                &&& r->Ok_0@[k]@.timeout == route::duration_of_millis(
                    match entries@[i].1.timeout_ms {
                        Some(millis) => millis,
                        None => 300_000,
                    },
                )
                &&& r->Ok_0@[k]@.max_body_bytes == match entries@[i].1.max_body_bytes {
                    Some(limit) => limit,
                    None => 10_485_760,
                }
            },
{
    upstreams_are_accepted_or_complained_about(entries@, r);
    if r is Ok {
        let routes = r->Ok_0;
        let views = route_views(routes@);
        arranging_keeps_every_route(routes_of(entries@)->Ok_0, views);
        accepted_upstreams_have_their_routes(entries@, routes_of(entries@)->Ok_0);
        if 0 <= i < j < routes@.len() {
            assert(views[i] == routes@[i]@ && views[j] == routes@[j]@);
            if utf8::encode_utf8(views[j].prefix).len() > utf8::encode_utf8(
                views[i].prefix,
            ).len() {
                longer_prefix_stands_first(routes_of(entries@)->Ok_0, views, j, i);
            }
        }
        if 0 <= i < entries@.len() {
            every_upstream_is_served(entries@, routes, i);
        }
    }
}

/// A configuration is assembled from what the file says: it listens on the socket address that
/// was read, exposes metrics where the file says or at the default path, and has one route per
/// upstream.
pub proof fn configuration_is_assembled_from_the_file<A>(
    raw: FileConfig,
    bind_addr: Result<A, String>,
    r: Result<Config<A>, AppError>,
)
    requires
        call_ensures(Config::<A>::assemble, (raw, bind_addr), r),
    ensures
        bind_addr is Err ==> r is Err && r->Err_0.is_config(
            "invalid bind_addr: "@ + bind_addr->Err_0@,
        ),
        r is Ok <==> bind_addr is Ok && raw.upstreams@.len() > 0 && routes_of(
            raw.upstreams@,
        ) is Ok,
        r is Ok ==> {
            &&& r->Ok_0.bind_addr == bind_addr->Ok_0
            &&& raw.metrics_path is None ==> r->Ok_0.metrics_path@ == "/metrics"@
            &&& raw.metrics_path is Some && "/"@.is_prefix_of(raw.metrics_path->Some_0@)
                ==> r->Ok_0.metrics_path@ == raw.metrics_path->Some_0@
            &&& raw.metrics_path is Some && !"/"@.is_prefix_of(raw.metrics_path->Some_0@)
                ==> r->Ok_0.metrics_path@ == "/"@ + raw.metrics_path->Some_0@
            &&& r->Ok_0.upstreams@.len() == raw.upstreams@.len()
        },
{
    configuration_is_what_the_file_says(raw, bind_addr, r);
    file_gives_or_leaves_to_the_defaults(raw);
    if r is Ok {
        every_upstream_is_served(raw.upstreams@, r->Ok_0.upstreams, 0);
    }
}

/// A file that is no configuration file is refused for what its parser says; what is made of one
/// that is, is what is made of the parsed file.
pub proof fn configuration_is_read_from_the_text<
    A,
    Y: FnOnce(&str) -> Result<FileConfig, String>,
    P: FnOnce(String) -> Result<A, String>,
>(
    yaml: &str,
    parse_yaml: Y,
    parse_addr: P,
    file: Result<FileConfig, String>,
    r: Result<Config<A>, AppError>,
)
    requires
        call_ensures(Config::<A>::from_yaml_str::<Y, P>, (yaml, parse_yaml, parse_addr), r),
        forall|given: Result<FileConfig, String>| #[trigger]
            call_ensures(parse_yaml, (yaml,), given) ==> given == file,
    ensures
        file is Err ==> r is Err && r->Err_0.is_config("failed to parse YAML: "@ + file->Err_0@),
        file is Ok ==> raw_outcome(file->Ok_0, parse_addr, r),
{
}

/// The configuration file is the one that the environment names, and "config.yaml" where it names
/// none; a metrics path that the environment gives takes the place of that of the file.
pub proof fn environment_takes_precedence<A>(
    config_path: Option<String>,
    path: String,
    raw: FileConfig,
    metrics_path: Option<String>,
    file: FileConfig,
)
    requires
        call_ensures(Config::<A>::file_path, (config_path,), path),
        call_ensures(FileConfig::with_metrics_path, (raw, metrics_path), file),
    ensures
        config_path is Some ==> path@ == config_path->Some_0@,
        config_path is None ==> path@ == "config.yaml"@,
        metrics_path is Some ==> file.metrics_path == metrics_path,
        metrics_path is None ==> file.metrics_path == raw.metrics_path,
        file.bind_addr == raw.bind_addr,
        file.upstreams == raw.upstreams,
{
}

/// The summary of a configuration has one line per route, in the order of the routes.
pub proof fn summary_has_a_line_per_route<A>(config: Config<A>, lines: Vec<String>)
    requires
        call_ensures(Config::<A>::route_summary, (&config,), lines),
    ensures
        lines@.len() == config.upstreams@.len(),
        forall|i: int|
            0 <= i < config.upstreams@.len() ==> (#[trigger] lines@[i])@
                == config.upstreams@[i]@.prefix + " => "@
                + config.upstreams@[i]@.targets[0].authority
                + config.upstreams@[i]@.targets[0].base_path,
{
}

} // verus!
