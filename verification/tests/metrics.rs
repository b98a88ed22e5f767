//! What the proxy keeps count of, and how it is exposed.

use std::time::Duration;

use roxy::metrics::{reply_with, Metrics};

fn exposed(metrics: &Metrics) -> String {
    String::from_utf8(metrics.encode().unwrap()).unwrap()
}

fn has_line(text: &str, line: &str) -> bool {
    text.lines().any(|l| l == line)
}

#[test]
fn record_method_calls_increments_counter() {
    let mut metrics = Metrics::new().expect("metrics constructed");
    metrics.record_method_calls("gnosis", &["eth_call".to_string(), "eth_getLogs".to_string()]);

    let first = metrics.method_calls("gnosis", "eth_call");
    let second = metrics.method_calls("gnosis", "eth_getLogs");

    assert_eq!(first, 1);
    assert_eq!(second, 1);
}

#[test]
fn each_call_is_counted_once() {
    let mut metrics = Metrics::new().unwrap();
    let calls = ["eth_call".to_string(), "eth_call".to_string(), "eth_chainId".to_string()];
    metrics.record_method_calls("gnosis", &calls);
    metrics.record_method_calls("gnosis", &calls[..1]);
    assert_eq!(metrics.method_calls("gnosis", "eth_call"), 3);
    assert_eq!(metrics.method_calls("gnosis", "eth_chainId"), 1);
    assert_eq!(metrics.method_calls("gnosis", "eth_getLogs"), 0);
    assert_eq!(metrics.method_calls("other", "eth_call"), 0);
}

#[test]
fn answered_request_is_exposed() {
    let mut metrics = Metrics::new().unwrap();
    metrics.record_request("gnosis", "POST");
    let text = exposed(&metrics);
    assert!(has_line(&text, "roxy_proxy_requests_total{method=\"POST\",upstream=\"gnosis\"} 1"));
    assert!(has_line(&text, "roxy_proxy_inflight_requests{upstream=\"gnosis\"} 1"));

    metrics.record_response("gnosis", "POST", 200, Duration::from_millis(20));
    let text = exposed(&metrics);
    assert!(has_line(&text, "roxy_proxy_inflight_requests{upstream=\"gnosis\"} 0"));
    assert!(has_line(
        &text,
        "roxy_proxy_responses_total{method=\"POST\",status=\"200\",upstream=\"gnosis\"} 1"
    ));
    assert!(has_line(
        &text,
        "roxy_proxy_request_latency_seconds_bucket{method=\"POST\",upstream=\"gnosis\",le=\"0.01\"} 0"
    ));
    assert!(has_line(
        &text,
        "roxy_proxy_request_latency_seconds_bucket{method=\"POST\",upstream=\"gnosis\",le=\"0.025\"} 1"
    ));
    assert!(has_line(
        &text,
        "roxy_proxy_request_latency_seconds_sum{method=\"POST\",upstream=\"gnosis\"} 0.02"
    ));
}

#[test]
fn buckets_have_the_documented_bounds() {
    let mut metrics = Metrics::new().unwrap();
    metrics.record_response("a", "GET", 503, Duration::from_secs(3));
    let text = exposed(&metrics);
    let bounds = ["0.001", "0.005", "0.01", "0.025", "0.05", "0.1", "0.25", "0.5", "1", "2.5"];
    for bound in bounds {
        assert!(has_line(
            &text,
            &format!(
                "roxy_proxy_request_latency_seconds_bucket{{method=\"GET\",upstream=\"a\",le=\"{bound}\"}} 0"
            )
        ));
    }
    assert!(has_line(
        &text,
        "roxy_proxy_request_latency_seconds_bucket{method=\"GET\",upstream=\"a\",le=\"5\"} 1"
    ));
    assert!(has_line(&text, "roxy_proxy_inflight_requests{upstream=\"a\"} -1"));
}

#[test]
fn failed_and_unmatched_requests_are_exposed() {
    let mut metrics = Metrics::new().unwrap();
    metrics.record_request("gnosis", "POST");
    metrics.record_error("gnosis", "POST", "upstream_timeout");
    metrics.record_unmatched("GET");
    let text = exposed(&metrics);
    assert!(has_line(
        &text,
        "roxy_proxy_errors_total{kind=\"upstream_timeout\",method=\"POST\",upstream=\"gnosis\"} 1"
    ));
    assert!(has_line(
        &text,
        "roxy_proxy_errors_total{kind=\"no_route\",method=\"GET\",upstream=\"__unmatched__\"} 1"
    ));
    assert!(has_line(&text, "roxy_proxy_inflight_requests{upstream=\"gnosis\"} 0"));
}

#[test]
fn method_latency_is_exposed() {
    let mut metrics = Metrics::new().unwrap();
    let methods = ["eth_call".to_string()];
    metrics.record_method_latency("gnosis", &methods, Duration::from_millis(100));
    let text = exposed(&metrics);
    assert!(has_line(
        &text,
        "roxy_rpc_method_latency_seconds_bucket{method=\"eth_call\",upstream=\"gnosis\",le=\"0.05\"} 0"
    ));
    assert!(has_line(
        &text,
        "roxy_rpc_method_latency_seconds_bucket{method=\"eth_call\",upstream=\"gnosis\",le=\"0.1\"} 1"
    ));
}

#[test]
fn method_errors_are_exposed() {
    let mut metrics = Metrics::new().unwrap();
    metrics.record_method_error("gnosis", "eth_call", "execution_error");
    metrics.record_method_error("gnosis", "eth_call", "execution_error");
    assert!(has_line(
        &exposed(&metrics),
        "roxy_rpc_method_errors_total{error=\"execution_error\",method=\"eth_call\",upstream=\"gnosis\"} 2"
    ));
}

#[test]
fn every_documented_family_is_exposed() {
    let mut metrics = Metrics::new().unwrap();
    let methods = ["eth_call".to_string()];
    metrics.record_request("a", "POST");
    metrics.record_method_calls("a", &methods);
    metrics.record_response("a", "POST", 200, Duration::from_millis(1));
    metrics.record_method_latency("a", &methods, Duration::from_millis(1));
    metrics.record_method_error("a", "eth_call", "other");
    metrics.record_unmatched("POST");
    let families = metrics.gather();
    let names: Vec<&str> = families.iter().map(|family| family.get_name()).collect();
    assert_eq!(
        names,
        vec![
            "roxy_proxy_errors_total",
            "roxy_proxy_inflight_requests",
            "roxy_proxy_method_calls_total",
            "roxy_proxy_request_latency_seconds",
            "roxy_proxy_requests_total",
            "roxy_proxy_responses_total",
            "roxy_rpc_method_errors_total",
            "roxy_rpc_method_latency_seconds",
        ]
    );
}

#[test]
fn label_values_that_join_to_one_text_share_a_series() {
    let mut metrics = Metrics::new().unwrap();
    metrics.record_method_calls("gnosis", &["eth_call".to_string()]);
    assert_eq!(metrics.method_calls("gnosise", "th_call"), 1);
    metrics.record_method_calls("gnosise", &["th_call".to_string()]);
    let text = exposed(&metrics);
    assert!(has_line(
        &text,
        "roxy_proxy_method_calls_total{method=\"eth_call\",upstream=\"gnosis\"} 2"
    ));
    assert!(!text.contains("gnosise"));
}

#[test]
fn reading_a_count_exposes_it() {
    let mut metrics = Metrics::new().unwrap();
    assert_eq!(metrics.method_calls("gnosis", "eth_call"), 0);
    assert!(has_line(
        &exposed(&metrics),
        "roxy_proxy_method_calls_total{method=\"eth_call\",upstream=\"gnosis\"} 0"
    ));
}

#[test]
fn families_without_entries_are_not_gathered() {
    let mut metrics = Metrics::new().unwrap();
    assert!(metrics.gather().is_empty());
    assert_eq!(exposed(&metrics), "");
    metrics.record_unmatched("GET");
    let families = metrics.gather();
    assert_eq!(families.len(), 1);
    assert_eq!(families[0].get_name(), "roxy_proxy_errors_total");
}

#[test]
fn metrics_reply_is_text_or_a_bare_error() {
    let good = reply_with(Ok(b"abc".to_vec()));
    assert_eq!(good.status, 200);
    assert_eq!(good.content_type, Some("text/plain; version=0.0.4"));
    assert_eq!(good.body, b"abc");
    let bad = reply_with(Err(prometheus::Error::AlreadyReg));
    assert_eq!(bad.status, 500);
    assert_eq!(bad.content_type, None);
    assert!(bad.body.is_empty());
}
