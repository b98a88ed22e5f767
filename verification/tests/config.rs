//! Configuration files and the routes that they stand for.

use std::time::Duration;

use roxy::config::{
    target_from, Config, FileConfig, RoutingKind, UpstreamConfig, DEFAULT_BIND_ADDR, DEFAULT_CONFIG_PATH,
    DEFAULT_MAX_BODY_BYTES, DEFAULT_UPSTREAM_TIMEOUT_MS,
};
use roxy::errors::AppError;
use roxy::route::Route;
use roxy::uri::Uri;
use serde_yaml::Value;

const SAMPLE_YAML: &str = r#"
bind_addr: "127.0.0.1:9090"
metrics_path: "/custom-metrics"
upstreams:
  gnosis:
    routing_type: "round_robin"
    timeout_ms: 250
    max_body_bytes: 1024
    urls:
      - "https://alchemy.example"
      - "https://backup.alchemy.example/base"
  fallback:
    timeout_ms: 150
    max_body_bytes: 2048
    urls:
      - "https://fallback.example"
"#;

fn text(value: &Value) -> Result<String, String> {
    match value.as_str() {
        Some(s) => Ok(s.to_string()),
        None => Err("expected a string".to_string()),
    }
}

fn read_upstream(value: &Value) -> Result<UpstreamConfig, String> {
    let routing_type = match value.get("routing_type") {
        None => None,
        Some(kind) => match text(kind)?.as_str() {
            "round_robin" => Some(RoutingKind::RoundRobin),
            other => return Err(format!("unknown variant `{other}`")),
        },
    };
    let mut urls = Vec::new();
    match value.get("urls").and_then(|list| list.as_sequence()) {
        None => return Err("missing field `urls`".to_string()),
        Some(list) => {
            for url in list {
                urls.push(text(url)?);
            }
        }
    }
    Ok(UpstreamConfig {
        routing_type,
        urls,
        timeout_ms: value.get("timeout_ms").and_then(|ms| ms.as_u64()),
        max_body_bytes: value
            .get("max_body_bytes")
            .and_then(|bytes| bytes.as_u64())
            .map(|bytes| bytes as usize),
    })
}

fn read_file(yaml: &str) -> Result<FileConfig, String> {
    let value: Value = serde_yaml::from_str(yaml).map_err(|err| err.to_string())?;
    let bind_addr = match value.get("bind_addr") {
        Some(addr) => Some(text(addr)?),
        None => None,
    };
    let metrics_path = match value.get("metrics_path") {
        Some(path) => Some(text(path)?),
        None => None,
    };
    let mut upstreams = Vec::new();
    match value.get("upstreams").and_then(|map| map.as_mapping()) {
        None => return Err("missing field `upstreams`".to_string()),
        Some(map) => {
            for (name, upstream) in map {
                upstreams.push((text(name)?, read_upstream(upstream)?));
            }
        }
    }
    upstreams.sort_by(|a, b| a.0.cmp(&b.0));
    Ok(FileConfig { bind_addr, metrics_path, upstreams })
}

fn load(yaml: &str) -> Result<Config<String>, AppError> {
    Config::from_yaml_str(yaml, read_file, |addr: String| {
        if addr.contains(':') {
            Ok(addr)
        } else {
            Err("invalid socket address syntax".to_string())
        }
    })
}

fn take_route(config: Config<String>, name: &str) -> Route {
    config
        .upstreams
        .into_iter()
        .find(|route| route.name() == name)
        .unwrap()
}

fn request(path: &str, query: Option<&str>) -> Uri {
    Uri {
        scheme: None,
        authority: None,
        path: path.to_string(),
        query: query.map(|q| q.to_string()),
    }
}

fn upstream(urls: &[&str]) -> UpstreamConfig {
    UpstreamConfig {
        routing_type: None,
        urls: urls.iter().map(|url| url.to_string()).collect(),
        timeout_ms: None,
        max_body_bytes: None,
    }
}

fn assemble(upstreams: Vec<(String, UpstreamConfig)>) -> Result<Config<u16>, AppError> {
    let raw = FileConfig { bind_addr: None, metrics_path: None, upstreams };
    Config::assemble(raw, Ok(8080))
}

fn complaint(name: &str, upstream: UpstreamConfig) -> String {
    match assemble(vec![(name.to_string(), upstream)]) {
        Err(AppError::Config(reason)) => reason,
        other => panic!("expected a configuration error, got {other:?}"),
    }
}

#[test]
fn parses_config_from_yaml() {
    let config = load(SAMPLE_YAML).expect("config parses");
    assert_eq!(config.bind_addr, "127.0.0.1:9090");
    assert_eq!(config.metrics_path, "/custom-metrics");
    assert_eq!(config.upstreams.len(), 2);
    let gnosis = config
        .upstreams
        .iter()
        .find(|route| route.name() == "gnosis")
        .expect("gnosis route exists");
    assert!(gnosis.matches("/gate/gnosis/foo"));
    assert_eq!(gnosis.timeout(), Duration::from_millis(250));
    assert_eq!(gnosis.max_body_bytes(), 1024);
    let fallback = config
        .upstreams
        .iter()
        .find(|route| route.name() == "fallback")
        .expect("fallback route exists");
    assert!(fallback.matches("/gate/fallback/ping"));
    assert_eq!(fallback.timeout(), Duration::from_millis(150));
    assert_eq!(fallback.max_body_bytes(), 2048);
}

#[test]
fn prepare_upstream_merges_paths_and_queries() {
    let config = load(SAMPLE_YAML).unwrap();
    let mut route = take_route(config, "gnosis");
    let original = request("/gate/gnosis/rpc", Some("foo=bar"));

    let prepared = route.prepare_upstream(&original).unwrap();
    assert_eq!(prepared.uri.scheme.as_deref(), Some("https"));
    assert_eq!(prepared.uri.authority.as_deref(), Some("alchemy.example"));
    assert_eq!(prepared.uri.path, "/rpc");
    assert_eq!(prepared.uri.query.as_deref(), Some("foo=bar"));
    assert_eq!(prepared.authority, "alchemy.example");
}

#[test]
fn prepare_upstream_respects_base_path() {
    let config = load(SAMPLE_YAML).unwrap();
    let mut route = take_route(config, "gnosis");
    let original = request("/gate/gnosis/debug/trace", None);

    let prepared = route.prepare_upstream(&original).unwrap();
    assert_eq!(prepared.uri.path, "/debug/trace");
    assert_eq!(prepared.uri.query, None);

    let second = route.prepare_upstream(&original).unwrap();
    assert_eq!(second.authority, "backup.alchemy.example");
    assert_eq!(second.uri.path, "/base/debug/trace");
}

#[test]
fn sanitises_route_names() {
    let yaml = r#"
upstreams:
  "eth sepolia!":
    urls:
      - "https://sepolia.example"
"#;

    let config = load(yaml).expect("config parses");
    let route = config
        .upstreams
        .iter()
        .find(|route| route.name() == "eth sepolia!")
        .expect("route exists");

    assert!(route.matches("/gate/eth-sepolia/rpc"));
    assert_eq!(route.timeout(), Duration::from_millis(DEFAULT_UPSTREAM_TIMEOUT_MS));
    assert_eq!(route.max_body_bytes(), DEFAULT_MAX_BODY_BYTES);
}

#[test]
fn defaults_are_five_minutes_and_ten_mebibytes() {
    let config = assemble(vec![("gnosis".to_string(), upstream(&["https://a.example"]))]).unwrap();
    assert_eq!(config.upstreams[0].timeout(), Duration::from_secs(300));
    assert_eq!(config.upstreams[0].max_body_bytes(), 10_485_760);
    assert_eq!(config.metrics_path, "/metrics");
}

#[test]
fn bind_address_defaults_and_is_refused_with_its_message() {
    let yaml = "upstreams:\n  a:\n    urls: [\"https://a.example\"]\n";
    assert_eq!(load(yaml).unwrap().bind_addr, DEFAULT_BIND_ADDR);
    let yaml = "bind_addr: nowhere\nupstreams:\n  a:\n    urls: [\"https://a.example\"]\n";
    let error = load(yaml).unwrap_err();
    assert_eq!(
        error,
        AppError::Config("invalid bind_addr: invalid socket address syntax".to_string())
    );
    assert_eq!(
        error.message(),
        "configuration error: invalid bind_addr: invalid socket address syntax"
    );
}

#[test]
fn broken_yaml_is_refused_with_its_message() {
    let error = load("bind_addr: a:1").unwrap_err();
    assert_eq!(
        error,
        AppError::Config("failed to parse YAML: missing field `upstreams`".to_string())
    );
}

#[test]
fn metrics_path_gets_a_leading_slash() {
    let raw = FileConfig {
        bind_addr: None,
        metrics_path: Some("stats".to_string()),
        upstreams: vec![("a".to_string(), upstream(&["https://a.example"]))],
    };
    let config = Config::assemble(raw, Ok(1u8)).unwrap();
    assert_eq!(config.metrics_path, "/stats");
}

#[test]
fn given_metrics_path_takes_the_place_of_the_file() {
    let file = || FileConfig {
        bind_addr: None,
        metrics_path: Some("/stats".to_string()),
        upstreams: vec![("a".to_string(), upstream(&["https://a.example"]))],
    };
    let given = file().with_metrics_path(Some("scrape".to_string()));
    assert_eq!(Config::assemble(given, Ok(1u8)).unwrap().metrics_path, "/scrape");
    let left = file().with_metrics_path(None);
    assert_eq!(Config::assemble(left, Ok(1u8)).unwrap().metrics_path, "/stats");
}

#[test]
fn configuration_without_upstreams_is_refused() {
    assert_eq!(
        assemble(Vec::new()).unwrap_err(),
        AppError::Config("configuration must include at least one upstream".to_string())
    );
}

#[test]
fn upstreams_of_one_prefix_are_refused() {
    let error = assemble(vec![
        ("eth mainnet".to_string(), upstream(&["https://a.example"])),
        ("eth-mainnet".to_string(), upstream(&["https://b.example"])),
    ])
    .unwrap_err();
    assert_eq!(
        error,
        AppError::Config("duplicate upstream prefix '/gate/eth-mainnet'".to_string())
    );
}

#[test]
fn zero_limits_are_refused() {
    let mut timeless = upstream(&["https://a.example"]);
    timeless.timeout_ms = Some(0);
    assert_eq!(complaint("a", timeless), "upstream 'a' timeout_ms must be greater than zero");
    let mut bodiless = upstream(&["https://a.example"]);
    bodiless.max_body_bytes = Some(0);
    assert_eq!(complaint("a", bodiless), "upstream 'a' max_body_bytes must be greater than zero");
}

#[test]
fn unusable_urls_are_refused() {
    assert_eq!(complaint("a", upstream(&[])), "upstream 'a' must provide at least one url");
    assert_eq!(complaint("a", upstream(&["/rpc"])), "upstream 'a' url is missing a scheme");
    assert_eq!(
        complaint("a", upstream(&["https://a.example/rpc?key=1"])),
        "upstream 'a' url must not include a query string"
    );
    assert_eq!(
        complaint("a", upstream(&["https://a.example", "http://b c"])),
        "invalid url 'http://b c' for 'a': invalid uri character"
    );
}

#[test]
fn targets_come_from_parsed_urls() {
    let parsed = |scheme: Option<&str>, authority: Option<&str>, query: Option<&str>| {
        Ok(Uri {
            scheme: scheme.map(|s| s.to_string()),
            authority: authority.map(|s| s.to_string()),
            path: "/base/".to_string(),
            query: query.map(|s| s.to_string()),
        })
    };
    let complaint = |parts| match target_from("a", "url", parts) {
        Err(AppError::Config(reason)) => reason,
        other => panic!("expected a configuration error, got {other:?}"),
    };
    let target = target_from("a", "url", parsed(Some("https"), Some("h:1"), None)).unwrap();
    assert_eq!(target.scheme, "https");
    assert_eq!(target.authority, "h:1");
    assert_eq!(target.base_path, "/base");
    assert_eq!(complaint(parsed(None, None, None)), "upstream 'a' url is missing a scheme");
    assert_eq!(complaint(parsed(Some("https"), None, None)), "upstream 'a' url is missing a host");
    assert_eq!(
        complaint(parsed(Some("https"), Some("h"), Some("q"))),
        "upstream 'a' url must not include a query string"
    );
    assert_eq!(complaint(Err("bad".to_string())), "invalid url 'url' for 'a': bad");
}

#[test]
fn routes_stand_longest_prefix_first() {
    let config = assemble(vec![
        ("a".to_string(), upstream(&["https://a.example"])),
        ("aaa".to_string(), upstream(&["https://b.example"])),
        ("bbb".to_string(), upstream(&["https://c.example"])),
        ("zz".to_string(), upstream(&["https://d.example"])),
    ])
    .unwrap();
    let names: Vec<&str> = config.upstreams.iter().map(|route| route.name()).collect();
    assert_eq!(names, vec!["aaa", "bbb", "zz", "a"]);
}

#[test]
fn summary_names_the_first_target() {
    let config = assemble(vec![(
        "gnosis".to_string(),
        upstream(&["https://a.example/base/", "https://b.example"]),
    )])
    .unwrap();
    assert_eq!(config.route_summary(), vec!["/gate/gnosis => a.example/base".to_string()]);
}

#[test]
fn config_path_defaults() {
    assert_eq!(Config::<u8>::file_path(None), DEFAULT_CONFIG_PATH);
    assert_eq!(Config::<u8>::file_path(Some("/etc/roxy.yaml".to_string())), "/etc/roxy.yaml");
}

#[test]
fn targets_take_turns() {
    let config = assemble(vec![(
        "a".to_string(),
        upstream(&["https://one.example", "http://two.example:8545", "https://three.example"]),
    )])
    .unwrap();
    let mut route = config.upstreams.into_iter().next().unwrap();
    let original = request("/gate/a", None);
    let mut seen = Vec::new();
    for _ in 0..6 {
        seen.push(route.prepare_upstream(&original).unwrap().authority);
    }
    assert_eq!(
        seen,
        vec![
            "one.example",
            "two.example:8545",
            "three.example",
            "one.example",
            "two.example:8545",
            "three.example"
        ]
    );
}

#[test]
fn rewritten_uri_that_is_too_long_is_refused() {
    let config = assemble(vec![("a".to_string(), upstream(&["https://a.example"]))]).unwrap();
    let mut route = config.upstreams.into_iter().next().unwrap();
    let longest = "x".repeat(65_533);
    let fits = request(&format!("/gate/a/{longest}"), None);
    assert_eq!(route.prepare_upstream(&fits).unwrap().uri.path.len(), 65_534);
    let too_long = request(&format!("/gate/a/{longest}x"), None);
    assert_eq!(route.prepare_upstream(&too_long).unwrap_err(), "uri too long");
    let unfit = request("/gate/a/b c", None);
    assert_eq!(route.prepare_upstream(&unfit).unwrap_err(), "invalid uri character");
}
