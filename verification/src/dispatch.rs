//! The dispatcher: one decoded request in, one planned reaction out.
//!
//! Protocol failures (unreadable line, unknown method) become JSON-RPC
//! error envelopes.  Tool failures never do: they ride inside a success
//! envelope as a text content block flagged `isError`, so a calling agent
//! always gets an inspectable message.  A request without an `id` is a
//! notification: it is processed like any other, and its answer is
//! suppressed before it reaches the wire.

use vstd::prelude::*;
use crate::json::{JVal, Json, deep_copy, copy_chars, chars_of, eq_chars, append_str, spec_get,
    spec_as_str, jvals_of, jmembers_of, lemma_jvals_of, lemma_jmembers_of};
use crate::envelope::{Request, Response, ReqV, spec_decode, decode_request, encode_response,
    resp_jval, dec_lex, opt_jval};
use crate::parse::skip_ws;
use crate::registry::{get_tools, tools_to_json, catalog_names, catalog, tools_jvals,
    lemma_tools_jvals, td_view, tool_jval};
use crate::ser::{ser, pretty, to_pretty_text};

verus! {

/// A member of the request parameters, when the parameters are an object
/// that has it.
pub open spec fn opt_get(p: Option<JVal>, key: Seq<char>) -> Option<JVal> {
    match p {
        Some(v) => spec_get(v, key),
        None => None,
    }
}

/// The tool name of a `tools/call`, or the empty string when absent or not
/// a string.
pub open spec fn call_name(params: Option<JVal>) -> Seq<char> {
    match spec_as_str(opt_get(params, "name"@)) {
        Some(s) => s,
        None => Seq::empty(),
    }
}

/// The arguments of a `tools/call`: the `arguments` member when it is an
/// object, the empty object otherwise.
pub open spec fn call_args(params: Option<JVal>) -> JVal {
    match opt_get(params, "arguments"@) {
        Some(v) => if v is Obj {
            v
        } else {
            JVal::Obj(Seq::empty())
        },
        None => JVal::Obj(Seq::empty()),
    }
}

/// The identifier echoed in a response: the request's, or null.
pub open spec fn id_or_null(id: Option<JVal>) -> JVal {
    match id {
        Some(v) => v,
        None => JVal::Null,
    }
}

/// What `initialize` always returns: the protocol version, the tool
/// capability, and the server identity.
pub open spec fn init_result() -> JVal {
    JVal::Obj(
        seq![
            ("protocolVersion"@, JVal::Str("2024-11-05"@)),
            ("capabilities"@, JVal::Obj(seq![("tools"@, JVal::Obj(Seq::empty()))])),
            (
                "serverInfo"@,
                JVal::Obj(
                    seq![
                        ("name"@, JVal::Str("proxybase-mcp"@)),
                        ("version"@, JVal::Str("0.1.0"@)),
                    ],
                ),
            ),
        ],
    )
}

/// What `tools/list` always returns: the advertised catalog, verbatim,
/// the same on every call.
pub open spec fn tools_list_result() -> JVal {
    JVal::Obj(seq![("tools"@, JVal::Arr(tools_jvals(catalog())))])
}

/// The error message naming an unrecognized method.
pub open spec fn not_found_msg(method: Seq<char>) -> Seq<char> {
    "Method not found: "@ + method
}

/// The message reported for a line that is not a JSON-RPC request.
pub open spec fn parse_error_msg() -> Seq<char> {
    "Parse error: invalid JSON-RPC request"@
}

/// The wire object of a success envelope.
pub open spec fn success_envelope(id: JVal, result: JVal) -> JVal {
    JVal::Obj(
        seq![("jsonrpc"@, JVal::Str("2.0"@)), ("id"@, id), ("result"@, result)],
    )
}

/// The wire object of an error envelope.
pub open spec fn error_envelope(id: JVal, code: int, message: Seq<char>) -> JVal {
    JVal::Obj(
        seq![
            ("jsonrpc"@, JVal::Str("2.0"@)),
            ("id"@, id),
            (
                "error"@,
                JVal::Obj(
                    seq![("code"@, JVal::Num(dec_lex(code))), ("message"@, JVal::Str(message))],
                ),
            ),
        ],
    )
}

/// The result object wrapped around a successful tool outcome: one text
/// content block holding the indented JSON of the backend body.
pub open spec fn tool_ok_result(v: JVal) -> JVal {
    JVal::Obj(
        seq![
            (
                "content"@,
                JVal::Arr(
                    seq![
                        JVal::Obj(
                            seq![
                                ("type"@, JVal::Str("text"@)),
                                ("text"@, JVal::Str(pretty(v, Seq::empty()))),
                            ],
                        )
                    ],
                ),
            ),
        ],
    )
}

/// The result object wrapped around a failed tool outcome: the message as
/// a text content block, flagged as an error — still a success envelope.
pub open spec fn tool_err_result(msg: Seq<char>) -> JVal {
    JVal::Obj(
        seq![
            (
                "content"@,
                JVal::Arr(
                    seq![
                        JVal::Obj(
                            seq![("type"@, JVal::Str("text"@)), ("text"@, JVal::Str(msg))],
                        )
                    ],
                ),
            ),
            ("isError"@, JVal::Bool(true)),
        ],
    )
}

/// What the dispatcher decides for one request.
pub enum Dispatch {
    /// Answer at once with this response.
    Respond(Response),
    /// Run this tool with these arguments, then wrap its outcome.
    RunTool { name: Vec<char>, args: Json },
}

/// Routes one request by method name.
pub fn dispatch(req: &Request) -> (r: Dispatch)
    ensures
        req.method@ == "initialize"@ ==> (r matches Dispatch::Respond(Response::Success {
            id,
            result,
        }) && id@ == id_or_null(opt_jval(req.id)) && result@ == init_result()),
        req.method@ == "tools/list"@ ==> (r matches Dispatch::Respond(Response::Success {
            id,
            result,
        }) && id@ == id_or_null(opt_jval(req.id)) && result@ == tools_list_result() && (spec_get(
            result@,
            "tools"@,
        ) matches Some(JVal::Arr(elems)) && elems.len() == catalog_names().len() && (forall|i: int|
            0 <= i < catalog_names().len() ==> spec_as_str(
                spec_get(#[trigger] elems[i], "name"@),
            ) == Some(catalog_names()[i])))),
        req.method@ == "tools/call"@ ==> (r matches Dispatch::RunTool { name, args } && name@
            == call_name(opt_jval(req.params)) && args@ == call_args(opt_jval(req.params))),
        (req.method@ == "notifications/initialized"@ || req.method@ == "notifications/cancelled"@)
            ==> (r matches Dispatch::Respond(Response::Success { id, result }) && id@ == id_or_null(
            opt_jval(req.id),
        ) && result@ == JVal::Null),
        (req.method@ != "initialize"@ && req.method@ != "tools/list"@ && req.method@
            != "tools/call"@ && req.method@ != "notifications/initialized"@ && req.method@
            != "notifications/cancelled"@) ==> (r matches Dispatch::Respond(Response::Failure {
            id,
            code,
            message,
        }) && id@ == id_or_null(opt_jval(req.id)) && code == -32601 && message@ == not_found_msg(
            req.method@,
        )),
{
    proof {
        reveal_strlit("initialize");
        reveal_strlit("tools/list");
        reveal_strlit("tools/call");
        reveal_strlit("notifications/initialized");
        reveal_strlit("notifications/cancelled");
        assert("initialize"@.len() == 10);
        assert("tools/list"@.len() == 10);
        assert("tools/call"@.len() == 10);
        assert("notifications/initialized"@.len() == 25);
        assert("notifications/cancelled"@.len() == 23);
        assert("initialize"@[0] == 'i');
        assert("tools/list"@[0] == 't');
        assert("tools/call"@[0] == 't');
        assert("tools/list"@[6] == 'l');
        assert("tools/call"@[6] == 'c');
    }
    let id: Json = match &req.id {
        Some(v) => deep_copy(v),
        None => Json::Null,
    };
    if eq_chars(req.method.as_slice(), chars_of("initialize").as_slice()) {
        let mut info: Vec<(Vec<char>, Json)> = Vec::new();
        info.push((chars_of("name"), Json::Str(chars_of("proxybase-mcp"))));
        info.push((chars_of("version"), Json::Str(chars_of("0.1.0"))));
        let server_info = Json::Obj(info);
        proof {
            lemma_jmembers_of(server_info->Obj_0@);
            assert(jmembers_of(server_info->Obj_0@) =~= seq![
                ("name"@, JVal::Str("proxybase-mcp"@)),
                ("version"@, JVal::Str("0.1.0"@)),
            ]);
        }
        let mut caps: Vec<(Vec<char>, Json)> = Vec::new();
        caps.push((chars_of("tools"), Json::Obj(Vec::new())));
        let capabilities = Json::Obj(caps);
        proof {
            lemma_jmembers_of(capabilities->Obj_0@);
            assert(jmembers_of(Seq::<(Vec<char>, Json)>::empty()) =~= Seq::<
                (Seq<char>, JVal),
            >::empty());
            assert(jmembers_of(capabilities->Obj_0@) =~= seq![
                ("tools"@, JVal::Obj(Seq::empty())),
            ]);
        }
        let mut members: Vec<(Vec<char>, Json)> = Vec::new();
        members.push((chars_of("protocolVersion"), Json::Str(chars_of("2024-11-05"))));
        members.push((chars_of("capabilities"), capabilities));
        members.push((chars_of("serverInfo"), server_info));
        let result = Json::Obj(members);
        proof {
            lemma_jmembers_of(result->Obj_0@);
            assert(jmembers_of(result->Obj_0@) =~= init_result()->Obj_0);
            assert(result@ == init_result());
        }
        Dispatch::Respond(Response::Success { id, result })
    } else if eq_chars(req.method.as_slice(), chars_of("tools/list").as_slice()) {
        let tools = get_tools();
        let listed = tools_to_json(&tools);
        proof {
            lemma_tools_jvals(catalog());
            assert forall|i: int| 0 <= i < 7 implies listed@->Arr_0[i] == #[trigger] tools_jvals(
                catalog(),
            )[i] by {
                assert(listed@->Arr_0[i] == tool_jval(td_view(tools@[i])));
                assert(td_view(tools@[i]) == catalog()[i]);
            }
            assert(listed@->Arr_0 =~= tools_jvals(catalog()));
        }
        let mut members: Vec<(Vec<char>, Json)> = Vec::new();
        members.push((chars_of("tools"), listed));
        let result = Json::Obj(members);
        proof {
            lemma_jmembers_of(result->Obj_0@);
            assert(spec_get(result@, "tools"@) == Some(jmembers_of(result->Obj_0@)[0].1));
            assert(jmembers_of(result->Obj_0@) =~= tools_list_result()->Obj_0);
            assert(result@ == tools_list_result());
        }
        Dispatch::Respond(Response::Success { id, result })
    } else if eq_chars(req.method.as_slice(), chars_of("tools/call").as_slice()) {
        let k_name = chars_of("name");
        let k_args = chars_of("arguments");
        let name: Vec<char> = match &req.params {
            Some(p) => match p.get(k_name.as_slice()) {
                Some(v) => match v.as_str() {
                    Some(s) => copy_chars(s.as_slice()),
                    None => Vec::new(),
                },
                None => Vec::new(),
            },
            None => Vec::new(),
        };
        let args: Json = match &req.params {
            Some(p) => match p.get(k_args.as_slice()) {
                Some(v) => {
                    if v.is_object() {
                        deep_copy(v)
                    } else {
                        Json::Obj(Vec::new())
                    }
                },
                None => Json::Obj(Vec::new()),
            },
            None => Json::Obj(Vec::new()),
        };
        proof {
            assert(jmembers_of(Seq::<(Vec<char>, Json)>::empty()) =~= Seq::<
                (Seq<char>, JVal),
            >::empty());
            assert(name@ =~= call_name(opt_jval(req.params)));
            assert(args@ =~~= call_args(opt_jval(req.params)));
        }
        Dispatch::RunTool { name, args }
    } else if eq_chars(req.method.as_slice(), chars_of("notifications/initialized").as_slice())
        || eq_chars(req.method.as_slice(), chars_of("notifications/cancelled").as_slice()) {
        Dispatch::Respond(Response::Success { id, result: Json::Null })
    } else {
        let mut msg: Vec<char> = Vec::new();
        append_str(&mut msg, "Method not found: ");
        crate::json::append_chars(&mut msg, req.method.as_slice());
        Dispatch::Respond(Response::Failure { id, code: -32601, message: msg })
    }
}

/// Wraps a tool outcome as the success envelope `tools/call` answers with.
pub fn wrap_tool_outcome(id: Json, outcome: Result<Json, Vec<char>>) -> (r: Response)
    ensures
        r matches Response::Success { id: rid, result } && rid@ == id@ && result@ == (
        match outcome {
            Ok(content) => tool_ok_result(content@),
            Err(msg) => tool_err_result(msg@),
        }),
{
    let ghost want = match &outcome {
        Ok(content) => tool_ok_result(content@),
        Err(msg) => tool_err_result(msg@),
    };
    let ghost text_model = match &outcome {
        Ok(content) => pretty(content@, Seq::<char>::empty()),
        Err(msg) => msg@,
    };
    let mut block: Vec<(Vec<char>, Json)> = Vec::new();
    block.push((chars_of("type"), Json::Str(chars_of("text"))));
    let is_err = outcome.is_err();
    match outcome {
        Ok(content) => {
            block.push((chars_of("text"), Json::Str(to_pretty_text(&content))));
        },
        Err(msg) => {
            block.push((chars_of("text"), Json::Str(msg)));
        },
    }
    let block_obj = Json::Obj(block);
    proof {
        lemma_jmembers_of(block_obj->Obj_0@);
        assert(jmembers_of(block_obj->Obj_0@) =~= seq![
            ("type"@, JVal::Str("text"@)),
            ("text"@, JVal::Str(text_model)),
        ]);
    }
    let mut blocks: Vec<Json> = Vec::new();
    blocks.push(block_obj);
    let content_arr = Json::Arr(blocks);
    proof {
        lemma_jvals_of(content_arr->Arr_0@);
        assert(jvals_of(content_arr->Arr_0@) =~= seq![
            JVal::Obj(seq![("type"@, JVal::Str("text"@)), ("text"@, JVal::Str(text_model))]),
        ]);
    }
    let mut members: Vec<(Vec<char>, Json)> = Vec::new();
    members.push((chars_of("content"), content_arr));
    if is_err {
        members.push((chars_of("isError"), Json::Bool(true)));
    }
    let result = Json::Obj(members);
    proof {
        lemma_jmembers_of(result->Obj_0@);
        assert(jmembers_of(result->Obj_0@) =~= want->Obj_0);
        assert(result@ == want);
    }
    Response::Success { id, result }
}

/// What the transport does with one input line.
pub enum LineOutcome {
    /// Nothing is written: the line was a notification.
    Ignore,
    /// Write this one line back.
    Reply(Vec<char>),
    /// Run this tool, wrap its outcome, and write the envelope only when
    /// `respond` is set.
    RunTool { respond: bool, id: Json, name: Vec<char>, args: Json },
}

/// True when the line holds nothing but whitespace.
pub fn is_blank(line: &[char]) -> (r: bool)
    ensures
        r == (skip_ws(line@).len() == 0),
{
    let n = line.len();
    proof {
        assert(line@.skip(0) =~= line@);
    }
    for i in 0..n
        invariant
            n == line@.len(),
            skip_ws(line@) == skip_ws(line@.skip(i as int)),
    {
        proof {
            assert(line@.skip(i as int)[0] == line@[i as int]);
            assert(line@.skip(i as int).skip(1) =~= line@.skip(i as int + 1));
        }
        if !crate::parse::ws_char(line[i]) {
            return false;
        }
    }
    proof {
        assert(line@.skip(n as int).len() == 0);
    }
    true
}

/// Handles one input line up to the point where a tool would run: either
/// the line to write back, nothing (a notification), or the tool to run.
pub fn handle_line(line: &[char]) -> (r: LineOutcome)
    requires
        line@.len() + 2 <= usize::MAX,
    ensures
        spec_decode(line@) is None ==> (r matches LineOutcome::Reply(b) && b@ == ser(
            error_envelope(JVal::Null, -32700, parse_error_msg()),
        )),
        spec_decode(line@) matches Some(rv) ==> {
            &&& (rv.id is None && rv.method != "tools/call"@) ==> r is Ignore
            &&& rv.method == "tools/call"@ ==> (r matches LineOutcome::RunTool {
                respond,
                id,
                name,
                args,
            } && respond == (rv.id is Some) && id@ == id_or_null(rv.id) && name@ == call_name(
                rv.params,
            ) && args@ == call_args(rv.params))
            &&& (rv.id is Some && rv.method == "initialize"@) ==> (
            r matches LineOutcome::Reply(b) && b@ == ser(
                success_envelope(id_or_null(rv.id), init_result()),
            ))
            &&& (rv.id is Some && rv.method == "tools/list"@) ==> (r matches LineOutcome::Reply(b)
                && b@ == ser(success_envelope(id_or_null(rv.id), tools_list_result())))
            &&& (rv.id is Some && (rv.method == "notifications/initialized"@ || rv.method
                == "notifications/cancelled"@)) ==> (r matches LineOutcome::Reply(b) && b@ == ser(
                success_envelope(id_or_null(rv.id), JVal::Null),
            ))
            &&& (rv.id is Some && rv.method != "initialize"@ && rv.method != "tools/list"@
                && rv.method != "tools/call"@ && rv.method != "notifications/initialized"@
                && rv.method != "notifications/cancelled"@) ==> (r matches LineOutcome::Reply(b)
                && b@ == ser(error_envelope(id_or_null(rv.id), -32601, not_found_msg(rv.method))))
        },
{
    let req = match decode_request(line) {
        Some(req) => req,
        None => {
            let mut msg: Vec<char> = Vec::new();
            append_str(&mut msg, "Parse error: invalid JSON-RPC request");
            let resp = Response::Failure { id: Json::Null, code: -32700, message: msg };
            return LineOutcome::Reply(encode_response(&resp));
        },
    };
    let has_id = req.id.is_some();
    match dispatch(&req) {
        Dispatch::RunTool { name, args } => {
            let id = match req.id {
                Some(v) => v,
                None => Json::Null,
            };
            LineOutcome::RunTool { respond: has_id, id, name, args }
        },
        Dispatch::Respond(resp) => {
            if has_id {
                let bytes = encode_response(&resp);
                proof {
                    match &resp {
                        Response::Success { id, result } => {
                            assert(resp_jval(resp) == success_envelope(id@, result@));
                        },
                        Response::Failure { id, code, message } => {
                            assert(resp_jval(resp) == error_envelope(id@, *code as int, message@));
                        },
                    }
                }
                LineOutcome::Reply(bytes)
            } else {
                LineOutcome::Ignore
            }
        },
    }
}

} // verus!
