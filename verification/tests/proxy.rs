//! The course of a request through the proxy.

use std::io::Write;
use std::time::Duration;

use axum::http::{HeaderMap, HeaderValue};
use roxy::body::{BodyCollectError, BodyCollector};
use roxy::config::{Config, FileConfig, UpstreamConfig};
use roxy::errors::ProxyError;
use roxy::headers::{
    can_take_forwarding, can_take_mark, host_of, infer_request_proto, mark_response,
    rewrite_request_headers,
};
use roxy::metrics::Metrics;
use roxy::proxy::{AppState, Failure};
use roxy::route::Route;
use roxy::rpc::{extract_methods, inspect_response, Reply, ReplyEntry};
use roxy::uri::Uri;

fn routes(upstreams: &[(&str, &[&str])]) -> Vec<Route> {
    let upstreams = upstreams
        .iter()
        .map(|(name, urls)| {
            (
                name.to_string(),
                UpstreamConfig {
                    routing_type: None,
                    urls: urls.iter().map(|url| url.to_string()).collect(),
                    timeout_ms: Some(50),
                    max_body_bytes: Some(128),
                },
            )
        })
        .collect();
    let raw = FileConfig { bind_addr: None, metrics_path: None, upstreams };
    Config::assemble(raw, Ok(0u8)).unwrap().upstreams
}

fn build_route() -> Route {
    routes(&[("gnosis", &["https://alchemy.example"])]).into_iter().next().unwrap()
}

fn build_state() -> AppState {
    AppState::new(vec![build_route()], Metrics::new().expect("metrics constructed"))
}

fn path(path: &str) -> Uri {
    Uri { scheme: None, authority: None, path: path.to_string(), query: None }
}

fn headers(entries: &[(&'static str, &'static str)]) -> HeaderMap {
    let mut map = HeaderMap::new();
    for (name, value) in entries {
        map.append(*name, HeaderValue::from_static(value));
    }
    map
}

fn text<'a>(map: &'a HeaderMap, name: &str) -> Option<&'a str> {
    map.get(name).map(|h| h.to_str().unwrap())
}

fn exposed(state: &AppState) -> String {
    let reply = state.metrics_reply();
    assert_eq!(reply.status, 200);
    assert_eq!(reply.content_type, Some("text/plain; version=0.0.4"));
    String::from_utf8(reply.body).unwrap()
}

fn has_line(text: &str, line: &str) -> bool {
    text.lines().any(|l| l == line)
}

#[test]
fn rewrite_request_headers_sets_forwarding_fields() {
    let mut route = build_route();
    let mut request = headers(&[("host", "proxy.local"), ("x-forwarded-for", "10.0.0.1")]);

    let original_host = host_of(&request);
    let original_uri = path("/gate/gnosis");
    let prepared = route.prepare_upstream(&original_uri).unwrap();
    let proto = infer_request_proto(&request, &original_uri);
    rewrite_request_headers(&mut request, &prepared, "192.168.0.10", original_host, &proto);

    assert_eq!(text(&request, "host"), Some("alchemy.example"));
    assert_eq!(text(&request, "x-forwarded-for"), Some("10.0.0.1, 192.168.0.10"));
    assert_eq!(text(&request, "x-forwarded-proto"), Some("http"));
    assert_eq!(text(&request, "forwarded"), Some("for=\"192.168.0.10\";proto=http"));
    assert_eq!(text(&request, "x-forwarded-host"), Some("proxy.local"));
}

#[test]
fn rewrite_request_headers_preserves_forwarded_proto() {
    let mut route = build_route();
    let mut request = headers(&[("host", "proxy.local"), ("x-forwarded-proto", "https")]);

    let original_host = host_of(&request);
    let original_uri = path("/gate/gnosis");
    let prepared = route.prepare_upstream(&original_uri).unwrap();
    let proto = infer_request_proto(&request, &original_uri);

    rewrite_request_headers(&mut request, &prepared, "10.0.0.1", original_host, &proto);

    assert_eq!(text(&request, "x-forwarded-proto"), Some("https"));
    assert_eq!(text(&request, "forwarded"), Some("for=\"10.0.0.1\";proto=https"));
}

#[test]
fn forwarding_keeps_other_headers() {
    let mut route = build_route();
    let mut request = headers(&[
        ("accept", "text/plain"),
        ("accept", "application/json"),
        ("x-forwarded-for", " \t"),
        ("x-forwarded-for", "10.0.0.9"),
    ]);
    let prepared = route.prepare_upstream(&path("/gate/gnosis")).unwrap();
    assert!(can_take_forwarding(&request));
    rewrite_request_headers(&mut request, &prepared, "10.0.0.1", None, "http");

    let accepted: Vec<&str> =
        request.get_all("accept").iter().map(|h| h.to_str().unwrap()).collect();
    assert_eq!(accepted, vec!["text/plain", "application/json"]);
    let chain: Vec<&str> =
        request.get_all("x-forwarded-for").iter().map(|h| h.to_str().unwrap()).collect();
    assert_eq!(chain, vec!["10.0.0.1"]);
    assert_eq!(text(&request, "x-forwarded-host"), None);
}

#[test]
fn chain_grows_at_each_hop() {
    let mut route = build_route();
    let mut request = HeaderMap::new();
    for peer in ["10.0.0.1", "10.0.0.2", "10.0.0.3"] {
        let prepared = route.prepare_upstream(&path("/gate/gnosis")).unwrap();
        rewrite_request_headers(&mut request, &prepared, peer, None, "http");
    }
    assert_eq!(text(&request, "x-forwarded-for"), Some("10.0.0.1, 10.0.0.2, 10.0.0.3"));
}

#[test]
fn values_that_are_no_text_fall_back() {
    let mut route = build_route();
    let prepared = route.prepare_upstream(&path("/gate/gnosis")).unwrap();
    let mut request = HeaderMap::new();
    request.insert("x-forwarded-for", HeaderValue::from_bytes(b"\xFF").unwrap());
    request.insert("x-forwarded-proto", HeaderValue::from_bytes(b"\xFF").unwrap());
    rewrite_request_headers(&mut request, &prepared, "10.0.0.1", None, "wss");
    assert_eq!(text(&request, "x-forwarded-for"), Some("10.0.0.1"));
    assert_eq!(request.get("x-forwarded-proto").unwrap().as_bytes(), b"\xFF");
    assert_eq!(text(&request, "forwarded"), Some("for=\"10.0.0.1\";proto=wss"));

    let mut request = HeaderMap::new();
    rewrite_request_headers(&mut request, &prepared, "a\nb", None, "c\nd");
    assert_eq!(text(&request, "x-forwarded-for"), Some("unknown"));
    assert_eq!(text(&request, "x-forwarded-proto"), Some("http"));
    assert_eq!(text(&request, "forwarded"), Some("for=\"unknown\""));

    let mut request = HeaderMap::new();
    rewrite_request_headers(&mut request, &prepared, "10.0.0.1", None, "h\u{e9}");
    assert_eq!(request.get("x-forwarded-proto").unwrap().as_bytes(), "h\u{e9}".as_bytes());
    assert_eq!(text(&request, "forwarded"), Some("for=\"10.0.0.1\";proto=http"));
}

#[test]
fn proto_is_inferred_from_header_scheme_or_default() {
    let secure = Uri {
        scheme: Some("https".to_string()),
        authority: Some("a.example".to_string()),
        path: "/".to_string(),
        query: None,
    };
    assert_eq!(infer_request_proto(&HeaderMap::new(), &path("/")), "http");
    assert_eq!(infer_request_proto(&HeaderMap::new(), &secure), "https");
    assert_eq!(infer_request_proto(&headers(&[("x-forwarded-proto", "wss")]), &secure), "wss");
    let mut opaque = HeaderMap::new();
    opaque.insert("x-forwarded-proto", HeaderValue::from_bytes(b"\xFF").unwrap());
    assert_eq!(infer_request_proto(&opaque, &secure), "https");
}

#[test]
fn responses_are_marked_behind_earlier_proxies() {
    let mut response = headers(&[("via", "1.0 other")]);
    assert!(can_take_mark(&response));
    mark_response(&mut response);
    let via: Vec<&str> = response.get_all("via").iter().map(|h| h.to_str().unwrap()).collect();
    assert_eq!(via, vec!["1.0 other", "1.1 roxy"]);
}

#[test]
fn header_maps_without_room_are_told_apart() {
    let mut map = HeaderMap::new();
    for i in 0..6_548 {
        let name = axum::http::HeaderName::from_bytes(format!("x-{i}").as_bytes()).unwrap();
        map.insert(name, HeaderValue::from_static("1"));
    }
    assert!(can_take_forwarding(&map));
    assert!(can_take_mark(&map));
    map.insert("one-more", HeaderValue::from_static("1"));
    assert!(!can_take_forwarding(&map));
    assert!(can_take_mark(&map));
}

#[test]
fn oversized_body_returns_413() {
    let route = build_route();
    let max_body_bytes = route.max_body_bytes();
    let metrics = Metrics::new().expect("metrics constructed");
    let mut state = AppState::new(vec![route], metrics);

    let oversized_payload = vec![b'{'; max_body_bytes + 1];
    let admission = state.accept("POST", &path("/gate/gnosis"), &HeaderMap::new()).unwrap();
    let mut collector = BodyCollector::new(admission.max_body_bytes());
    let error = collector.take_chunk(Ok(&oversized_payload)).unwrap_err();

    let result = state.fail(&admission, Failure::Body(error));
    assert_eq!(result.status(), 413);
    match result {
        ProxyError::BodyTooLarge { limit } => {
            assert_eq!(limit, max_body_bytes);
        }
        other => panic!("expected body too large error, got {other:?}"),
    }
}

#[test]
fn upstream_timeout_returns_error() {
    let mut state = build_state();
    let admission = state.accept("POST", &path("/gate/gnosis"), &HeaderMap::new()).unwrap();
    assert_eq!(admission.timeout(), Duration::from_millis(50));
    let extracted = extract_methods(
        b"{}",
        |_: &[u8]| Err("missing field `method`".to_string()),
        |_: &[u8]| Err("not a batch".to_string()),
    );
    let mut outgoing = HeaderMap::new();
    state.forward(&admission, extracted, "127.0.0.1", &mut outgoing);

    let result = state.fail(&admission, Failure::Timeout);
    assert_eq!(result.status(), 504);
    match result {
        ProxyError::UpstreamTimeout { upstream } => {
            assert_eq!(upstream.as_ref(), "gnosis");
        }
        other => panic!("expected upstream timeout, got {other:?}"),
    }
}

#[test]
fn answered_request_is_settled() {
    let mut state = build_state();
    let incoming = headers(&[("host", "proxy.local")]);
    let target = Uri {
        scheme: None,
        authority: None,
        path: "/gate/gnosis/v1".to_string(),
        query: Some("key=1".to_string()),
    };
    let admission = state.accept("POST", &target, &incoming).unwrap();
    assert_eq!(admission.target().path, "/v1");
    assert_eq!(admission.target().query.as_deref(), Some("key=1"));
    assert_eq!(admission.target().authority.as_deref(), Some("alchemy.example"));
    assert!(has_line(&exposed(&state), "roxy_proxy_inflight_requests{upstream=\"gnosis\"} 1"));

    let mut outgoing = incoming;
    let extracted: Result<Vec<String>, ()> = Ok(vec!["eth_call".to_string()]);
    let methods = state.forward(&admission, extracted, "127.0.0.1", &mut outgoing);
    assert_eq!(methods, vec!["eth_call".to_string()]);
    assert_eq!(text(&outgoing, "host"), Some("alchemy.example"));
    assert_eq!(text(&outgoing, "x-forwarded-host"), Some("proxy.local"));

    let mut response = HeaderMap::new();
    state.relay(&admission, &methods, 201, Duration::from_millis(3), &mut response);
    state.note_reply(&admission, &methods, &[], &Reply::Single(Some(-32602)));
    assert_eq!(text(&response, "via"), Some("1.1 roxy"));
    let metrics = exposed(&state);
    for line in [
        "roxy_proxy_inflight_requests{upstream=\"gnosis\"} 0",
        "roxy_proxy_requests_total{method=\"POST\",upstream=\"gnosis\"} 1",
        "roxy_proxy_responses_total{method=\"POST\",status=\"201\",upstream=\"gnosis\"} 1",
        "roxy_proxy_method_calls_total{method=\"eth_call\",upstream=\"gnosis\"} 1",
        "roxy_rpc_method_latency_seconds_count{method=\"eth_call\",upstream=\"gnosis\"} 1",
        "roxy_rpc_method_errors_total{error=\"invalid_params\",method=\"eth_call\",upstream=\"gnosis\"} 1",
    ] {
        assert!(has_line(&metrics, line), "missing {line}");
    }
}

#[test]
fn errors_of_a_batch_are_counted_by_method() {
    let mut state = build_state();
    let admission = state.accept("POST", &path("/gate/gnosis"), &HeaderMap::new()).unwrap();
    let methods = ["eth_call".to_string(), "eth_getLogs".to_string(), "eth_call".to_string()];
    let ids = [Some("1".to_string()), Some("2".to_string()), Some("3".to_string())];
    let entry = |id: &str, code| ReplyEntry { id: Some(id.to_string()), code };
    let reply = Reply::Batch(vec![entry("3", Some(3)), entry("2", None), entry("1", Some(3))]);
    state.note_reply(&admission, &methods, &ids, &reply);
    let metrics = exposed(&state);
    assert!(has_line(
        &metrics,
        "roxy_rpc_method_errors_total{error=\"execution_error\",method=\"eth_call\",upstream=\"gnosis\"} 2"
    ));
    assert!(!metrics.contains("roxy_rpc_method_errors_total{error=\"execution_error\",method=\"eth_getLogs\""));
}

#[test]
fn errors_in_gzip_responses_are_counted() {
    let mut state = build_state();
    let admission = state.accept("POST", &path("/gate/gnosis"), &HeaderMap::new()).unwrap();
    let methods = ["eth_call".to_string()];
    let response = headers(&[("content-encoding", "gzip")]);
    let mut encoder = flate2::write::GzEncoder::new(Vec::new(), flate2::Compression::fast());
    encoder.write_all(br#"{"error":{"code":3}}"#).unwrap();
    let body = encoder.finish().unwrap();
    let reply = inspect_response(
        &response,
        &body,
        |bytes: &[u8]| {
            assert_eq!(bytes, br#"{"error":{"code":3}}"#);
            Ok::<Option<i64>, ()>(Some(3))
        },
        |_: &[u8]| Err(()),
    );
    state.note_reply(&admission, &methods, &[], &reply);
    assert!(has_line(
        &exposed(&state),
        "roxy_rpc_method_errors_total{error=\"execution_error\",method=\"eth_call\",upstream=\"gnosis\"} 1"
    ));
}

#[test]
fn replies_without_errors_count_none() {
    let mut state = build_state();
    let admission = state.accept("POST", &path("/gate/gnosis"), &HeaderMap::new()).unwrap();
    let methods = ["eth_call".to_string()];
    for reply in [Reply::Unread, Reply::Single(None), Reply::Batch(Vec::new())] {
        state.note_reply(&admission, &methods, &[], &reply);
    }
    assert!(!exposed(&state).contains("roxy_rpc_method_errors_total"));
}

#[test]
fn unmatched_request_is_answered_404() {
    let mut state = build_state();
    let error = state.accept("GET", &path("/gate/gnosisx"), &HeaderMap::new()).err().unwrap();
    assert_eq!(error, ProxyError::NoMatchingUpstream { path: "/gate/gnosisx".to_string() });
    assert_eq!(error.status(), 404);
    assert_eq!(error.reply(), "no upstream configured for path /gate/gnosisx");
    assert_eq!(error.message(), "no upstream configured for path /gate/gnosisx");
    assert!(has_line(
        &exposed(&state),
        "roxy_proxy_errors_total{kind=\"no_route\",method=\"GET\",upstream=\"__unmatched__\"} 1"
    ));
}

#[test]
fn request_that_cannot_be_rewritten_is_answered_502() {
    let mut state = build_state();
    let error = state.accept("GET", &path("/gate/gnosis/a b"), &HeaderMap::new()).err().unwrap();
    assert_eq!(error, ProxyError::InvalidUri { reason: "invalid uri character".to_string() });
    assert_eq!(error.status(), 502);
    assert_eq!(error.reply(), "invalid upstream uri: invalid uri character");
    assert_eq!(error.message(), "failed to build upstream uri: invalid uri character");
    let metrics = exposed(&state);
    assert!(has_line(
        &metrics,
        "roxy_proxy_errors_total{kind=\"rewrite_uri\",method=\"GET\",upstream=\"gnosis\"} 1"
    ));
    assert!(has_line(&metrics, "roxy_proxy_inflight_requests{upstream=\"gnosis\"} 0"));
}

#[test]
fn failures_are_answered_and_counted() {
    let mut state = build_state();
    let admission = state.accept("POST", &path("/gate/gnosis"), &HeaderMap::new()).unwrap();
    let error = state.fail(&admission, Failure::Upstream("connect error".to_string()));
    assert_eq!(error.status(), 502);
    assert_eq!(error.reply(), "upstream request failed");
    assert_eq!(error.message(), "upstream 'gnosis' request failed: connect error");

    let admission = state.accept("POST", &path("/gate/gnosis"), &HeaderMap::new()).unwrap();
    let error =
        state.fail(&admission, Failure::Body(BodyCollectError::Io("reset".to_string())));
    assert_eq!(error.status(), 400);
    assert_eq!(error.reply(), "failed to read request body: reset");
    assert_eq!(error.message(), "failed to read request body: reset");

    let admission = state.accept("POST", &path("/gate/gnosis"), &HeaderMap::new()).unwrap();
    let error = state.fail(&admission, Failure::Body(BodyCollectError::TooLarge));
    assert_eq!(error.reply(), "request body exceeds limit of 128 bytes");
    assert_eq!(error.message(), "request body too large (limit 128 bytes)");

    let admission = state.accept("POST", &path("/gate/gnosis"), &HeaderMap::new()).unwrap();
    let error = state.fail(&admission, Failure::Timeout);
    assert_eq!(error.reply(), "upstream timed out");
    assert_eq!(error.message(), "upstream 'gnosis' timed out");

    let metrics = exposed(&state);
    for kind in ["upstream", "body_read", "body_too_large", "upstream_timeout"] {
        assert!(has_line(
            &metrics,
            &format!(
                "roxy_proxy_errors_total{{kind=\"{kind}\",method=\"POST\",upstream=\"gnosis\"}} 1"
            )
        ));
    }
    assert!(has_line(&metrics, "roxy_proxy_inflight_requests{upstream=\"gnosis\"} 0"));
}

#[test]
fn longest_prefix_wins() {
    let routes = routes(&[
        ("!", &["https://all.example"]),
        ("eth", &["https://eth.example"]),
        ("eth-sepolia", &["https://sepolia.example"]),
    ]);
    let mut state = AppState::new(routes, Metrics::new().unwrap());
    for (asked, served) in [
        ("/gate/eth", "eth.example"),
        ("/gate/eth/v1", "eth.example"),
        ("/gate/eth-sepolia", "sepolia.example"),
        ("/gate/eth-sepolia/v1", "sepolia.example"),
        ("/gate/eth-other", "all.example"),
        ("/gate", "all.example"),
    ] {
        let admission = state.accept("POST", &path(asked), &HeaderMap::new()).unwrap();
        assert_eq!(admission.target().authority.as_deref(), Some(served), "{asked}");
    }
    assert_eq!(state.match_route("/gates"), None);
    assert_eq!(state.match_route("/gate/eth"), Some(1));
}

#[test]
fn targets_take_turns_across_requests() {
    let routes = routes(&[("a", &["https://one.example", "https://two.example"])]);
    let mut state = AppState::new(routes, Metrics::new().unwrap());
    let mut served = Vec::new();
    for _ in 0..4 {
        let admission = state.accept("POST", &path("/gate/a"), &HeaderMap::new()).unwrap();
        served.push(admission.target().authority.clone().unwrap());
    }
    assert_eq!(served, vec!["one.example", "two.example", "one.example", "two.example"]);
}
