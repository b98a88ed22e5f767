# Roxy

Roxy is a reverse proxy for EVM JSON-RPC traffic. Requests come in under `/gate/{upstream-name}`,
are handed to the targets of that upstream in turn, and are counted for Prometheus on the way.

The library under `src/` holds everything that decides or computes, with contracts proved by Verus.
The program under `app/` adds the HTTP server, the HTTP client, the file system and the
environment.

## Modules

- `config`: configuration files and the routes that they stand for, longest prefix first.
- `paths`: route prefixes, segments of names, and the joining of paths.
- `route`: a route, its targets, whose turn it is, and the URI that a request is rewritten to.
- `uri`: URIs taken apart, on top of the `http` crate.
- `headers`: what forwarding does to the headers of requests and responses.
- `body`: request bodies collected under a limit.
- `rpc`: which JSON-RPC methods a request body calls, and which errors a response reports.
- `gzip`: gzip-encoded bodies, on top of the `flate2` crate.
- `hashing`, `ids`: the hash by which Prometheus tells families and label values apart.
- `metrics`: counters, gauges and histograms, on top of the `prometheus` crate.
- `proxy`: the course of a request, from its route to what its client is answered.
- `errors`: failures, their messages, statuses and replies.
- `text`: trimming, prefixes, comparison and decimal numerals.

What the library takes from outside crates stands behind small functions marked
`#[verifier::external_body]`; the comment above each says which outside function it calls and what
is relied upon.

## Configuration

```yaml
bind_addr: "0.0.0.0:8080"        # optional, defaults shown
metrics_path: "/metrics"        # optional
upstreams:
  gnosis:                        # served under /gate/gnosis
    routing_type: "round_robin"  # optional
    timeout_ms: 300000           # optional
    max_body_bytes: 10485760     # optional
    urls:
      - "https://node-one.example"
      - "https://node-two.example/rpc"
```

The file is `config.yaml`, or what `CONFIG_PATH` names. `METRICS_PATH` takes the place of
`metrics_path`.

## Metrics

- `roxy_proxy_requests_total{upstream,method}`
- `roxy_proxy_responses_total{upstream,method,status}`
- `roxy_proxy_errors_total{upstream,method,kind}`
- `roxy_proxy_inflight_requests{upstream}`
- `roxy_proxy_request_latency_seconds{upstream,method}`
- `roxy_proxy_method_calls_total{upstream,method}`
- `roxy_rpc_method_latency_seconds{upstream,method}`
- `roxy_rpc_method_errors_total{upstream,method,error}`
