use proxybase_mcp::backend::{Backend, HttpOutcome, classify_response};
use proxybase_mcp::dispatch::{handle_line, LineOutcome, wrap_tool_outcome};
use proxybase_mcp::envelope::{Response, encode_response, decode_request};
use proxybase_mcp::json::Json;
use proxybase_mcp::parse::parse_chars;
use proxybase_mcp::ser::{to_text, to_pretty_text};
use proxybase_mcp::tools::{tool_start, tool_resume, ToolStep, to_lower};

fn k(s: &str) -> Vec<char> {
    s.chars().collect()
}

fn jstr(s: &str) -> Json {
    Json::Str(k(s))
}

fn jnum(s: &str) -> Json {
    Json::Num(k(s))
}

fn text_of(v: &Vec<char>) -> String {
    v.iter().collect()
}

fn get<'a>(v: &'a Json, key: &str) -> Option<&'a Json> {
    v.get(&k(key))
}

fn parse_str(s: &str) -> Option<Json> {
    parse_chars(&k(s))
}

#[test]
fn parses_scalars_and_keeps_number_lexemes() {
    assert_eq!(parse_str("null"), Some(Json::Null));
    assert_eq!(parse_str(" true "), Some(Json::Bool(true)));
    assert_eq!(parse_str("false"), Some(Json::Bool(false)));
    assert_eq!(parse_str("-12.50e+3"), Some(jnum("-12.50e+3")));
    assert_eq!(parse_str("0"), Some(jnum("0")));
    assert_eq!(parse_str("01"), None);
    assert_eq!(parse_str("1."), None);
    assert_eq!(parse_str("--1"), None);
    assert_eq!(parse_str("nullx"), None);
    assert_eq!(parse_str(""), None);
    assert_eq!(parse_str("{\"a\":1} trailing"), None);
}

#[test]
fn parses_strings_with_escapes() {
    assert_eq!(parse_str("\"a\\nb\""), Some(jstr("a\nb")));
    assert_eq!(parse_str("\"\\u0041\""), Some(jstr("A")));
    assert_eq!(parse_str("\"\\ud83d\\ude00\""), Some(jstr("\u{1F600}")));
    assert_eq!(parse_str("\"\\ud83d\""), None);
    assert_eq!(parse_str("\"\\q\""), None);
    assert_eq!(parse_str("\"unterminated"), None);
}

#[test]
fn parses_nested_structures() {
    let v = parse_str("{\"a\": [1, {\"b\": null}, \"x\"], \"c\": {}}").unwrap();
    let a = match get(&v, "a").unwrap() {
        Json::Arr(items) => items,
        _ => panic!("a is not an array"),
    };
    assert_eq!(a.len(), 3);
    assert_eq!(a[0], jnum("1"));
    assert_eq!(get(&a[1], "b"), Some(&Json::Null));
    assert_eq!(a[2], jstr("x"));
    assert!(get(&v, "c").unwrap().is_object());
}

#[test]
fn serializes_compact_and_pretty() {
    let v = Json::Obj(vec![
        (k("a"), Json::Arr(vec![jnum("1"), jnum("2")])),
        (k("b"), jstr("x\"y")),
    ]);
    assert_eq!(text_of(&to_text(&v)), "{\"a\":[1,2],\"b\":\"x\\\"y\"}");
    assert_eq!(
        text_of(&to_pretty_text(&v)),
        "{\n  \"a\": [\n    1,\n    2\n  ],\n  \"b\": \"x\\\"y\"\n}",
    );
    assert_eq!(text_of(&to_text(&Json::Obj(vec![]))), "{}");
    assert_eq!(text_of(&to_pretty_text(&Json::Arr(vec![]))), "[]");
    assert_eq!(text_of(&to_text(&jstr("\u{1}"))), "\"\\u0001\"");
}

#[test]
fn round_trips_a_success_envelope() {
    let value = Json::Obj(vec![
        (k("order"), Json::Arr(vec![jnum("-1.5e2"), Json::Null, jstr("a\\b\n\u{1F600}")])),
        (k("empty"), Json::Obj(vec![])),
    ]);
    let expected = Json::Obj(vec![
        (k("order"), Json::Arr(vec![jnum("-1.5e2"), Json::Null, jstr("a\\b\n\u{1F600}")])),
        (k("empty"), Json::Obj(vec![])),
    ]);
    let resp = Response::success(jnum("7"), value);
    let wire = encode_response(&resp);
    let back = parse_chars(&wire).unwrap();
    assert_eq!(get(&back, "result"), Some(&expected));
    assert_eq!(get(&back, "id"), Some(&jnum("7")));
}

#[test]
fn decodes_requests_and_rejects_bad_envelopes() {
    let req = decode_request(&k("{\"jsonrpc\":\"2.0\",\"id\":null,\"method\":\"m\"}")).unwrap();
    assert_eq!(req.id, Some(Json::Null));
    assert_eq!(text_of(&req.method), "m");
    assert!(req.params.is_none());

    assert!(decode_request(&k("{\"jsonrpc\":\"2.0\",\"method\":1}")).is_none());
    assert!(decode_request(&k("{\"method\":\"m\"}")).is_none());
    assert!(decode_request(&k("[1,2]")).is_none());
}

#[test]
fn scenario_missing_api_key_is_flagged_not_fatal() {
    let line = k(
        "{\"jsonrpc\":\"2.0\",\"id\":1,\"method\":\"tools/call\",\"params\":{\"name\":\"list_packages\",\"arguments\":{}}}",
    );
    let (respond, id, name, args) = match handle_line(&line) {
        LineOutcome::RunTool { respond, id, name, args } => (respond, id, name, args),
        _ => panic!("tools/call was not routed to the executor"),
    };
    assert!(respond);
    let backend = Backend::new(&k("http://localhost:9999"));
    let outcome = match tool_start(&backend, &name, &args) {
        ToolStep::Done(outcome) => outcome,
        _ => panic!("a missing argument should not reach the backend"),
    };
    let wire = encode_response(&wrap_tool_outcome(id, outcome));
    let envelope = parse_chars(&wire).unwrap();
    assert_eq!(get(&envelope, "id"), Some(&jnum("1")));
    let result = get(&envelope, "result").unwrap();
    assert_eq!(get(result, "isError"), Some(&Json::Bool(true)));
    let content = match get(result, "content").unwrap() {
        Json::Arr(items) => items,
        _ => panic!("content is not an array"),
    };
    let text = text_of(get(&content[0], "text").unwrap().as_str().unwrap());
    assert!(text.contains("Missing required argument: api_key"));
}

#[test]
fn scenario_initialize_names_the_server() {
    let line = k("{\"jsonrpc\":\"2.0\",\"id\":2,\"method\":\"initialize\"}");
    let wire = match handle_line(&line) {
        LineOutcome::Reply(bytes) => bytes,
        _ => panic!("initialize must be answered"),
    };
    let envelope = parse_chars(&wire).unwrap();
    let result = get(&envelope, "result").unwrap();
    let info = get(result, "serverInfo").unwrap();
    assert_eq!(get(info, "name"), Some(&jstr("proxybase-mcp")));
    assert_eq!(get(result, "protocolVersion"), Some(&jstr("2024-11-05")));
}

#[test]
fn scenario_malformed_line_yields_parse_error() {
    let wire = match handle_line(&k("this is not json")) {
        LineOutcome::Reply(bytes) => bytes,
        _ => panic!("a malformed line must be answered"),
    };
    let envelope = parse_chars(&wire).unwrap();
    assert_eq!(get(&envelope, "id"), Some(&Json::Null));
    let error = get(&envelope, "error").unwrap();
    assert_eq!(get(error, "code"), Some(&jnum("-32700")));
    assert!(get(&envelope, "result").is_none());
}

#[test]
fn classifies_http_outcomes() {
    let ok = HttpOutcome::Response { status: 200, body: k("{\"x\":1}") };
    assert_eq!(classify_response(&ok).unwrap(), parse_str("{\"x\":1}").unwrap());

    let failed = HttpOutcome::Response { status: 404, body: k("{\"err\":\"no\"}") };
    assert_eq!(
        text_of(&classify_response(&failed).unwrap_err()),
        "API error (404): {\"err\":\"no\"}",
    );

    let garbled = HttpOutcome::Response { status: 200, body: k("<html>") };
    assert_eq!(
        text_of(&classify_response(&garbled).unwrap_err()),
        "Parse error: response body is not valid JSON",
    );

    let down = HttpOutcome::Transport(k("connection refused"));
    assert_eq!(text_of(&classify_response(&down).unwrap_err()), "HTTP error: connection refused");
}

#[test]
fn base_url_loses_trailing_slashes() {
    let b = Backend::new(&k("https://api.example.test///"));
    let q = b.register_agent();
    assert_eq!(text_of(&q.url), "https://api.example.test/v1/agents");
    assert!(q.post);
    assert!(q.api_key.is_none());
}

#[test]
fn currency_gate_rejects_unknown_currency() {
    let backend = Backend::new(&k("http://localhost:9999"));
    let args = Json::Obj(vec![
        (k("api_key"), jstr("pk_x")),
        (k("package_id"), jstr("us_1gb")),
        (k("pay_currency"), jstr("DOGE")),
    ]);
    let pending = match tool_start(&backend, &k("create_order"), &args) {
        ToolStep::Call(q, pending) => {
            assert_eq!(text_of(&q.url), "http://localhost:9999/v1/currencies");
            pending
        },
        _ => panic!("a supplied currency must be checked first"),
    };
    let listing = HttpOutcome::Response {
        status: 200,
        body: k("{\"currencies\":[\"btc\",\"usdttrc20\"]}"),
    };
    match tool_resume(&backend, pending, &listing) {
        ToolStep::Done(Err(msg)) => {
            assert_eq!(
                text_of(&msg),
                "Invalid pay_currency: 'DOGE'. Supported currencies: btc, usdttrc20",
            );
        },
        _ => panic!("an unsupported currency must fail the tool"),
    }
}

#[test]
fn currency_gate_passes_a_listed_currency() {
    let backend = Backend::new(&k("http://localhost:9999"));
    let args = Json::Obj(vec![
        (k("api_key"), jstr("pk_x")),
        (k("order_id"), jstr("ord_1")),
        (k("package_id"), jstr("us_1gb")),
        (k("pay_currency"), jstr("BTC")),
    ]);
    let pending = match tool_start(&backend, &k("topup_order"), &args) {
        ToolStep::Call(_, pending) => pending,
        _ => panic!("a supplied currency must be checked first"),
    };
    let listing = HttpOutcome::Response { status: 200, body: k("{\"currencies\":[\"btc\"]}") };
    match tool_resume(&backend, pending, &listing) {
        ToolStep::Call(q, _) => {
            assert_eq!(text_of(&q.url), "http://localhost:9999/v1/orders/ord_1/topup");
            assert!(q.post);
            let body = q.body.unwrap();
            assert_eq!(get(&body, "package_id"), Some(&jstr("us_1gb")));
            assert_eq!(get(&body, "pay_currency"), Some(&jstr("BTC")));
            assert!(get(&body, "callback_url").is_none());
        },
        _ => panic!("a listed currency must go on to the order"),
    }
}

#[test]
fn currency_gate_matches_case_insensitively_both_ways() {
    let backend = Backend::new(&k("http://localhost:9999"));
    let args = Json::Obj(vec![
        (k("api_key"), jstr("pk_x")),
        (k("package_id"), jstr("us_1gb")),
        (k("pay_currency"), jstr("btc")),
    ]);
    let pending = match tool_start(&backend, &k("create_order"), &args) {
        ToolStep::Call(_, pending) => pending,
        _ => panic!("a supplied currency must be checked first"),
    };
    let listing = HttpOutcome::Response { status: 200, body: k("{\"currencies\":[\"BTC\"]}") };
    match tool_resume(&backend, pending, &listing) {
        ToolStep::Call(q, _) => {
            assert_eq!(text_of(&q.url), "http://localhost:9999/v1/orders");
            let body = q.body.unwrap();
            assert_eq!(get(&body, "pay_currency"), Some(&jstr("btc")));
        },
        _ => panic!("membership is case-insensitive on both sides"),
    }
}

#[test]
fn currency_gate_propagates_backend_failure() {
    let backend = Backend::new(&k("http://localhost:9999"));
    let args = Json::Obj(vec![
        (k("api_key"), jstr("pk_x")),
        (k("package_id"), jstr("us_1gb")),
        (k("pay_currency"), jstr("btc")),
    ]);
    let pending = match tool_start(&backend, &k("create_order"), &args) {
        ToolStep::Call(_, pending) => pending,
        _ => panic!("a supplied currency must be checked first"),
    };
    let down = HttpOutcome::Transport(k("timed out"));
    match tool_resume(&backend, pending, &down) {
        ToolStep::Done(Err(msg)) => assert_eq!(text_of(&msg), "HTTP error: timed out"),
        _ => panic!("a failed currency lookup fails the tool"),
    }
}

#[test]
fn unknown_tool_is_named() {
    let backend = Backend::new(&k("http://localhost:9999"));
    let args = Json::Obj(vec![]);
    match tool_start(&backend, &k("mint_money"), &args) {
        ToolStep::Done(Err(msg)) => assert_eq!(text_of(&msg), "Unknown tool: mint_money"),
        _ => panic!("an unknown tool must fail"),
    }
}

#[test]
fn ascii_lowering_only_touches_letters() {
    assert_eq!(text_of(&to_lower(&k("UsDt-Trc20"))), "usdt-trc20");
}

#[test]
fn tool_success_carries_indented_body() {
    let body = Json::Obj(vec![(k("order_id"), jstr("ord_9"))]);
    let resp = wrap_tool_outcome(jnum("5"), Ok(body));
    let wire = encode_response(&resp);
    let envelope = parse_chars(&wire).unwrap();
    let result = get(&envelope, "result").unwrap();
    assert!(get(result, "isError").is_none());
    let content = match get(result, "content").unwrap() {
        Json::Arr(items) => items,
        _ => panic!("content is not an array"),
    };
    assert_eq!(get(&content[0], "type"), Some(&jstr("text")));
    let text = text_of(get(&content[0], "text").unwrap().as_str().unwrap());
    assert_eq!(text, "{\n  \"order_id\": \"ord_9\"\n}");
}

#[test]
fn extreme_error_codes_render_in_decimal() {
    let resp = Response::error(Json::Null, i64::MIN, k("m"));
    let envelope = parse_chars(&encode_response(&resp)).unwrap();
    let error = get(&envelope, "error").unwrap();
    assert_eq!(get(error, "code"), Some(&jnum("-9223372036854775808")));
}
