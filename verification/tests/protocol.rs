use proxybase_mcp::dispatch::{dispatch, handle_line, wrap_tool_outcome, Dispatch, LineOutcome};
use proxybase_mcp::envelope::{Request, Response, encode_response};
use proxybase_mcp::json::Json;
use proxybase_mcp::parse::parse_chars;
use proxybase_mcp::registry::{get_tools, tools_to_json};
use proxybase_mcp::tools::{get_str_arg, tool_start, ToolStep};
use proxybase_mcp::backend::Backend;

fn k(s: &str) -> Vec<char> {
    s.chars().collect()
}

fn jstr(s: &str) -> Json {
    Json::Str(k(s))
}

fn jnum(s: &str) -> Json {
    Json::Num(k(s))
}

fn text_of(v: &Vec<char>) -> String {
    v.iter().collect()
}

fn get<'a>(v: &'a Json, key: &str) -> Option<&'a Json> {
    v.get(&k(key))
}

fn get_text(v: &Json, key: &str) -> String {
    match get(v, key) {
        Some(j) => match j.as_str() {
            Some(s) => text_of(s),
            None => panic!("member {} is not a string", key),
        },
        None => panic!("member {} is absent", key),
    }
}

#[test]
fn test_get_tools_valid_json() {
    let tools = tools_to_json(&get_tools());
    let arr = match &tools {
        Json::Arr(items) => items,
        _ => panic!("catalog is not an array"),
    };
    assert_eq!(arr.len(), 7);

    let names: Vec<String> = arr.iter().map(|t| get_text(t, "name")).collect();

    assert!(names.contains(&"register_agent".to_string()));
    assert!(names.contains(&"list_packages".to_string()));
    assert!(names.contains(&"list_currencies".to_string()));
    assert!(names.contains(&"create_order".to_string()));
    assert!(names.contains(&"check_order_status".to_string()));
    assert!(names.contains(&"topup_order".to_string()));
    assert!(names.contains(&"rotate_proxy".to_string()));
}

#[test]
fn test_tool_schemas_have_descriptions() {
    let tools = tools_to_json(&get_tools());
    let arr = match &tools {
        Json::Arr(items) => items,
        _ => panic!("catalog is not an array"),
    };
    for tool in arr.iter() {
        let name = get_text(tool, "name");
        assert!(get(tool, "description").is_some(), "Tool {:?} missing description", name);
        assert!(get(tool, "inputSchema").is_some(), "Tool {:?} missing inputSchema", name);
    }
}

#[test]
fn test_get_str_arg() {
    let args = Json::Obj(vec![
        (k("api_key"), jstr("pk_test")),
        (k("package_id"), jstr("us_1gb")),
    ]);
    assert_eq!(text_of(&get_str_arg(&args, &k("api_key")).unwrap()), "pk_test");
    assert!(get_str_arg(&args, &k("missing")).is_err());
}

#[test]
fn test_jsonrpc_response_success() {
    let resp = Response::success(jnum("1"), Json::Obj(vec![(k("ok"), Json::Bool(true))]));
    let serialized = parse_chars(&encode_response(&resp)).unwrap();
    assert_eq!(get_text(&serialized, "jsonrpc"), "2.0");
    assert_eq!(get(&serialized, "id"), Some(&jnum("1")));
    assert!(get(&serialized, "error").is_none());
}

#[test]
fn test_jsonrpc_response_error() {
    let resp = Response::error(jnum("1"), -32600, k("Invalid request"));
    let serialized = parse_chars(&encode_response(&resp)).unwrap();
    let error = get(&serialized, "error").unwrap();
    assert_eq!(get(error, "code"), Some(&jnum("-32600")));
    assert_eq!(get_text(error, "message"), "Invalid request");
    assert!(get(&serialized, "result").is_none());
}

#[test]
fn test_handle_initialize() {
    let req = Request { id: Some(jnum("1")), method: k("initialize"), params: None };

    let result = match dispatch(&req) {
        Dispatch::Respond(Response::Success { result, .. }) => result,
        _ => panic!("initialize did not answer with a result"),
    };
    assert_eq!(get_text(&result, "protocolVersion"), "2024-11-05");
    assert!(get(get(&result, "capabilities").unwrap(), "tools").unwrap().is_object());
    assert_eq!(get_text(get(&result, "serverInfo").unwrap(), "name"), "proxybase-mcp");
}

#[test]
fn test_handle_tools_list() {
    let req = Request { id: Some(jnum("2")), method: k("tools/list"), params: None };

    let result = match dispatch(&req) {
        Dispatch::Respond(Response::Success { result, .. }) => result,
        _ => panic!("tools/list did not answer with a result"),
    };
    let tools = match get(&result, "tools").unwrap() {
        Json::Arr(items) => items,
        _ => panic!("tools is not an array"),
    };
    assert_eq!(tools.len(), 7);
}

#[test]
fn test_handle_unknown_method() {
    let req = Request { id: Some(jnum("3")), method: k("unknown/method"), params: None };

    match dispatch(&req) {
        Dispatch::Respond(Response::Failure { code, .. }) => assert_eq!(code, -32601),
        _ => panic!("unknown method did not answer with an error"),
    }
}

#[test]
fn test_handle_tools_call_missing_arg() {
    let backend = Backend::new(&k("http://localhost:9999"));
    let req = Request {
        id: Some(jnum("4")),
        method: k("tools/call"),
        params: Some(Json::Obj(vec![
            (k("name"), jstr("list_packages")),
            (k("arguments"), Json::Obj(vec![])),
        ])),
    };

    let (name, args) = match dispatch(&req) {
        Dispatch::RunTool { name, args } => (name, args),
        _ => panic!("tools/call was not routed to the executor"),
    };
    let outcome = match tool_start(&backend, &name, &args) {
        ToolStep::Done(outcome) => outcome,
        _ => panic!("a missing argument should not reach the backend"),
    };
    let resp = wrap_tool_outcome(jnum("4"), outcome);
    let result = match resp {
        Response::Success { result, .. } => result,
        _ => panic!("tool failures must ride in a success envelope"),
    };
    assert_eq!(get(&result, "isError"), Some(&Json::Bool(true)));
    let content = match get(&result, "content").unwrap() {
        Json::Arr(items) => items,
        _ => panic!("content is not an array"),
    };
    let text = get_text(&content[0], "text");
    assert!(text.contains("Missing required argument: api_key"));
}

#[test]
fn test_notification_is_not_answered() {
    let line = k("{\"jsonrpc\":\"2.0\",\"method\":\"initialize\"}");
    match handle_line(&line) {
        LineOutcome::Ignore => {},
        _ => panic!("a request without an id must not be answered"),
    }
}

#[test]
fn test_notification_tools_call_runs_but_stays_silent() {
    let line = k(
        "{\"jsonrpc\":\"2.0\",\"method\":\"tools/call\",\"params\":{\"name\":\"register_agent\"}}",
    );
    match handle_line(&line) {
        LineOutcome::RunTool { respond, name, .. } => {
            assert!(!respond);
            assert_eq!(text_of(&name), "register_agent");
        },
        _ => panic!("the tool is still run for a notification"),
    }
}
