use rpc_proxy::config::{CacheConfig, Config, ServerConfig, UpstreamConfig};
use rpc_proxy::engine::{Action, Engine, Event, UpstreamOutcome};
use rpc_proxy::json::JsonValue;
use rpc_proxy::rpc::{
    serialize_response, serve_cached_response, exhausted_response, JsonRpcRequest,
    JsonRpcResponse, JsonRpcResponseError,
};

fn upstream(url: &str, rate_limit: Option<&str>, failover: Option<bool>) -> UpstreamConfig {
    UpstreamConfig {
        http_url: url.to_string(),
        rate_limit: rate_limit.map(|s| s.to_string()),
        failover,
    }
}

fn table(entries: &[(&str, bool)]) -> Option<Vec<(String, bool)>> {
    Some(entries.iter().map(|(k, v)| (k.to_string(), *v)).collect())
}

fn config(
    enabled: bool,
    exclude: Option<Vec<(String, bool)>>,
    retry: Option<Vec<(String, bool)>>,
    upstreams: Vec<UpstreamConfig>,
) -> Config {
    Config {
        server: ServerConfig { host: "127.0.0.1".to_string(), port: 8080 },
        cache: CacheConfig { enabled, exclude_methods: exclude },
        upstreams,
        try_next_upstream_on_errors: retry,
    }
}

fn req(id: u64, method: &str, params: Option<Vec<JsonValue>>) -> JsonRpcRequest {
    JsonRpcRequest {
        jsonrpc: "2.0".to_string(),
        id,
        method: method.to_string(),
        params,
    }
}

fn ok_response(id: u64, result: &[u8]) -> JsonRpcResponse {
    JsonRpcResponse {
        jsonrpc: "2.0".to_string(),
        id: Some(id),
        result: Some(JsonValue::Str(result.to_vec())),
        error: None,
    }
}

fn err_response(id: u64, code: i16, message: &str) -> JsonRpcResponse {
    JsonRpcResponse {
        jsonrpc: "2.0".to_string(),
        id: Some(id),
        result: None,
        error: Some(JsonRpcResponseError { code, message: message.to_string(), data: None }),
    }
}

fn text(bytes: Vec<u8>) -> String {
    String::from_utf8(bytes).unwrap()
}

#[test]
fn cache_hit_serves_without_upstream_call() {
    let cfg = config(true, None, None, vec![upstream("http://u1", None, None)]);
    let mut e = Engine::with_limits(cfg, 3600, 100);

    let (st, a) = e.dispatch_init(req(1, "getBlock", Some(vec![JsonValue::Num(b"42".to_vec())])), 10);
    assert!(matches!(a, Action::CallUpstream(0)));
    let (_, a) = e.dispatch_step(st, Event::Outcome(UpstreamOutcome::Response(ok_response(1, b"X"))), 10);
    match a {
        Action::ReturnUpstream(r) => assert_eq!(
            text(serialize_response(&r)),
            "{\"jsonrpc\":\"2.0\",\"id\":1,\"result\":\"X\"}"
        ),
        _ => panic!("expected a relayed success"),
    }

    // the identical request with a different id is served from the cache
    let (st2, a2) = e.dispatch_init(req(2, "getBlock", Some(vec![JsonValue::Num(b"42".to_vec())])), 11);
    match a2 {
        Action::ServeCached(v) => assert_eq!(
            text(serialize_response(&serve_cached_response(st2.req.id, v))),
            "{\"jsonrpc\":\"2.0\",\"id\":2,\"result\":\"X\"}"
        ),
        _ => panic!("expected a cache hit"),
    }
}

#[test]
fn excluded_method_always_calls_upstream_and_never_writes() {
    let cfg = config(
        true,
        table(&[("getStatus", true)]),
        None,
        vec![upstream("http://u1", None, None)],
    );
    let mut e = Engine::with_limits(cfg, 3600, 100);

    for id in 1..=2u64 {
        let (st, a) = e.dispatch_init(req(id, "getStatus", None), 10);
        assert!(matches!(a, Action::CallUpstream(0)));
        let (_, a) = e.dispatch_step(
            st,
            Event::Outcome(UpstreamOutcome::Response(ok_response(id, b"S"))),
            10,
        );
        assert!(matches!(a, Action::ReturnUpstream(_)));
    }
    assert_eq!(e.cache.len(), 0);
}

#[test]
fn cache_disabled_never_reads_or_writes() {
    let cfg = config(false, None, None, vec![upstream("http://u1", None, None)]);
    let mut e = Engine::with_limits(cfg, 3600, 100);
    let (st, a) = e.dispatch_init(req(1, "getBlock", None), 10);
    assert!(matches!(a, Action::CallUpstream(0)));
    let (_, a) = e.dispatch_step(st, Event::Outcome(UpstreamOutcome::Response(ok_response(1, b"X"))), 10);
    assert!(matches!(a, Action::ReturnUpstream(_)));
    assert_eq!(e.cache.len(), 0);
    // and a second identical request goes to the upstream again
    let (_, a) = e.dispatch_init(req(2, "getBlock", None), 11);
    assert!(matches!(a, Action::CallUpstream(0)));
}

#[test]
fn retryable_error_fails_over_to_next_upstream() {
    let cfg = config(
        true,
        None,
        table(&[("busy", true)]),
        vec![upstream("http://u1", None, None), upstream("http://u2", None, None)],
    );
    let mut e = Engine::with_limits(cfg, 3600, 100);
    let (st, a) = e.dispatch_init(req(1, "m", None), 10);
    assert!(matches!(a, Action::CallUpstream(0)));
    let (st, a) = e.dispatch_step(
        st,
        Event::Outcome(UpstreamOutcome::Response(err_response(1, -32005, "busy"))),
        10,
    );
    assert!(matches!(a, Action::CallUpstream(1)));
    let (_, a) = e.dispatch_step(st, Event::Outcome(UpstreamOutcome::Response(ok_response(1, b"Y"))), 10);
    match a {
        Action::ReturnUpstream(r) => assert_eq!(
            text(serialize_response(&r)),
            "{\"jsonrpc\":\"2.0\",\"id\":1,\"result\":\"Y\"}"
        ),
        _ => panic!("expected the second upstream's success"),
    }
}

#[test]
fn non_retryable_error_returns_verbatim() {
    let cfg = config(
        true,
        None,
        table(&[("busy", true)]),
        vec![upstream("http://u1", None, None), upstream("http://u2", None, None)],
    );
    let mut e = Engine::with_limits(cfg, 3600, 100);
    let (st, a) = e.dispatch_init(req(9, "m", None), 10);
    assert!(matches!(a, Action::CallUpstream(0)));
    let (_, a) = e.dispatch_step(
        st,
        Event::Outcome(UpstreamOutcome::Response(err_response(9, -32000, "bad_param"))),
        10,
    );
    match a {
        Action::ReturnUpstream(r) => assert_eq!(
            text(serialize_response(&r)),
            "{\"jsonrpc\":\"2.0\",\"id\":9,\"result\":null,\"error\":{\"code\":-32000,\"message\":\"bad_param\"}}"
        ),
        _ => panic!("expected the error relayed verbatim"),
    }
    assert_eq!(e.cache.len(), 0);
}

#[test]
fn denied_limiter_without_failover_skips_to_next() {
    let cfg = config(
        true,
        None,
        None,
        vec![
            upstream("http://u1", Some("1/1 s"), Some(false)),
            upstream("http://u2", None, None),
        ],
    );
    let mut e = Engine::with_limits(cfg, 3600, 100);
    let (st, a) = e.dispatch_init(req(1, "m", None), 10);
    assert!(matches!(a, Action::CheckLimiter(0)));
    let (st, a) = e.dispatch_step(st, Event::LimiterDenied, 10);
    // the first upstream is never called
    assert!(matches!(a, Action::CallUpstream(1)));
    let (_, a) = e.dispatch_step(st, Event::Outcome(UpstreamOutcome::Response(ok_response(1, b"Z"))), 10);
    assert!(matches!(a, Action::ReturnUpstream(_)));
}

#[test]
fn denied_limiter_with_failover_waits_then_calls() {
    let cfg = config(true, None, None, vec![upstream("http://u1", Some("1/1 s"), Some(true))]);
    let mut e = Engine::with_limits(cfg, 3600, 100);
    let (st, a) = e.dispatch_init(req(1, "m", None), 10);
    assert!(matches!(a, Action::CheckLimiter(0)));
    let (st, a) = e.dispatch_step(st, Event::LimiterDenied, 10);
    assert!(matches!(a, Action::WaitLimiter(0)));
    let (st, a) = e.dispatch_step(st, Event::LimiterWaited, 10);
    assert!(matches!(a, Action::CallUpstream(0)));
    let (_, a) = e.dispatch_step(st, Event::Outcome(UpstreamOutcome::Response(ok_response(1, b"W"))), 10);
    assert!(matches!(a, Action::ReturnUpstream(_)));
}

#[test]
fn allowed_limiter_proceeds_to_call() {
    let cfg = config(true, None, None, vec![upstream("http://u1", Some("10/1 s"), None)]);
    let mut e = Engine::with_limits(cfg, 3600, 100);
    let (st, a) = e.dispatch_init(req(1, "m", None), 10);
    assert!(matches!(a, Action::CheckLimiter(0)));
    let (_, a) = e.dispatch_step(st, Event::LimiterAllowed, 10);
    assert!(matches!(a, Action::CallUpstream(0)));
}

#[test]
fn all_upstreams_failing_exhausts() {
    let cfg = config(
        true,
        None,
        None,
        vec![upstream("http://u1", None, None), upstream("http://u2", None, None)],
    );
    let mut e = Engine::with_limits(cfg, 3600, 100);
    let (st, a) = e.dispatch_init(req(1, "m", None), 10);
    assert!(matches!(a, Action::CallUpstream(0)));
    let (st, a) = e.dispatch_step(st, Event::Outcome(UpstreamOutcome::TransportError), 10);
    assert!(matches!(a, Action::CallUpstream(1)));
    let (_, a) = e.dispatch_step(st, Event::Outcome(UpstreamOutcome::TransportError), 10);
    assert!(matches!(a, Action::Exhausted));
    assert_eq!(
        text(serialize_response(&exhausted_response())),
        "{\"jsonrpc\":\"2.0\",\"id\":null,\"result\":null,\"error\":{\"code\":-32603,\"message\":\"No upstream was able to process this request\"}}"
    );
    assert_eq!(e.cache.len(), 0);
}

#[test]
fn null_result_fails_over_and_success_is_cached() {
    let cfg = config(
        true,
        None,
        None,
        vec![upstream("http://u1", None, None), upstream("http://u2", None, None)],
    );
    let mut e = Engine::with_limits(cfg, 3600, 100);
    let (st, a) = e.dispatch_init(req(1, "m", None), 10);
    assert!(matches!(a, Action::CallUpstream(0)));
    let null_res = JsonRpcResponse {
        jsonrpc: "2.0".to_string(),
        id: Some(1),
        result: None,
        error: None,
    };
    let (st, a) = e.dispatch_step(st, Event::Outcome(UpstreamOutcome::Response(null_res)), 10);
    assert!(matches!(a, Action::CallUpstream(1)));
    let (_, a) = e.dispatch_step(st, Event::Outcome(UpstreamOutcome::Response(ok_response(1, b"Z"))), 10);
    match a {
        Action::ReturnUpstream(r) => assert_eq!(
            text(serialize_response(&r)),
            "{\"jsonrpc\":\"2.0\",\"id\":1,\"result\":\"Z\"}"
        ),
        _ => panic!("expected the second upstream's success"),
    }
    assert_eq!(e.cache.len(), 1);
    let (st2, a2) = e.dispatch_init(req(2, "m", None), 11);
    match a2 {
        Action::ServeCached(v) => assert_eq!(
            text(serialize_response(&serve_cached_response(st2.req.id, v))),
            "{\"jsonrpc\":\"2.0\",\"id\":2,\"result\":\"Z\"}"
        ),
        _ => panic!("expected a cache hit"),
    }
}

#[test]
fn repeated_identical_requests_call_upstream_once() {
    let cfg = config(true, None, None, vec![upstream("http://u1", None, None)]);
    let mut e = Engine::with_limits(cfg, 3600, 100);
    let mut upstream_calls = 0;
    for id in 1..=5u64 {
        let (st, mut a) = e.dispatch_init(req(id, "m", None), 10);
        if let Action::CallUpstream(_) = a {
            upstream_calls += 1;
            let (_, a2) = e.dispatch_step(
                st,
                Event::Outcome(UpstreamOutcome::Response(ok_response(id, b"V"))),
                10,
            );
            a = a2;
        }
        match a {
            Action::ServeCached(_) | Action::ReturnUpstream(_) => {},
            _ => panic!("every request must succeed"),
        }
    }
    assert_eq!(upstream_calls, 1);
}

#[test]
fn exclusion_table_requires_true() {
    let cfg = config(
        true,
        table(&[("getStatus", false)]),
        None,
        vec![upstream("http://u1", None, None)],
    );
    let mut e = Engine::with_limits(cfg, 3600, 100);
    let (st, _) = e.dispatch_init(req(1, "getStatus", None), 10);
    let (_, _) = e.dispatch_step(
        st,
        Event::Outcome(UpstreamOutcome::Response(ok_response(1, b"S"))),
        10,
    );
    // a key mapped to false does not exclude, so the result is cached
    assert_eq!(e.cache.len(), 1);
}
