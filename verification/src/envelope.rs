//! The JSON-RPC 2.0 envelope: request decoding and response encoding.
//!
//! A request with no `id` member is a notification; it is decoded like any
//! other request, and the transport layer drops its answer.  A response
//! carries either a result or an error, never both: the two shapes are
//! separate variants, collapsed to the optional-field wire form only when
//! serialized.

use vstd::prelude::*;
use crate::json::{JVal, Json, deep_copy, copy_chars, chars_of, spec_as_str, spec_lookup};
use crate::parse::{parse_text, parse_chars};
use crate::ser::{ser, hex_digit, hex_digit_exec, write_val};

verus! {

/// The model of a decoded request.
pub struct ReqV {
    pub id: Option<JVal>,
    pub method: Seq<char>,
    pub params: Option<JVal>,
}

/// A decoded JSON-RPC request.
pub struct Request {
    pub id: Option<Json>,
    pub method: Vec<char>,
    pub params: Option<Json>,
}

/// The model of an optional JSON value.
pub open spec fn opt_jval(o: Option<Json>) -> Option<JVal> {
    match o {
        Some(j) => Some(j@),
        None => None,
    }
}

/// Reads a request envelope out of a parsed JSON value: an object whose
/// `jsonrpc` member is a string and whose `method` member is a string.
pub open spec fn req_of(v: JVal) -> Option<ReqV> {
    match v {
        JVal::Obj(ms) => match (
            spec_as_str(spec_lookup(ms, "jsonrpc"@)),
            spec_lookup(ms, "method"@),
        ) {
            (Some(_), Some(JVal::Str(m))) => Some(
                ReqV { id: spec_lookup(ms, "id"@), method: m, params: spec_lookup(ms, "params"@) },
            ),
            _ => None,
        },
        _ => None,
    }
}

/// Decodes one input line into a request.
pub open spec fn spec_decode(s: Seq<char>) -> Option<ReqV> {
    match parse_text(s) {
        Some(v) => req_of(v),
        None => None,
    }
}

/// Parses and validates one input line, exactly as [`spec_decode`] says.
pub fn decode_request(line: &[char]) -> (r: Option<Request>)
    requires
        line@.len() + 2 <= usize::MAX,
    ensures
        match (r, spec_decode(line@)) {
            (Some(req), Some(rv)) => opt_jval(req.id) == rv.id && req.method@ == rv.method
                && opt_jval(req.params) == rv.params,
            (None, None) => true,
            _ => false,
        },
{
    let v = match parse_chars(line) {
        Some(v) => v,
        None => {
            return None;
        },
    };
    let k_jsonrpc = chars_of("jsonrpc");
    let k_method = chars_of("method");
    let k_id = chars_of("id");
    let k_params = chars_of("params");
    let tag_ok = match v.get(k_jsonrpc.as_slice()) {
        Some(t) => t.as_str().is_some(),
        None => false,
    };
    if !tag_ok {
        return None;
    }
    let method = match v.get(k_method.as_slice()) {
        Some(m) => match m.as_str() {
            Some(s) => copy_chars(s.as_slice()),
            None => {
                return None;
            },
        },
        None => {
            return None;
        },
    };
    let id = match v.get(k_id.as_slice()) {
        Some(j) => Some(deep_copy(j)),
        None => None,
    };
    let params = match v.get(k_params.as_slice()) {
        Some(j) => Some(deep_copy(j)),
        None => None,
    };
    Some(Request { id, method, params })
}

/// The decimal digits of a non-negative integer.
pub open spec fn dec_udigits(n: int) -> Seq<char>
    recommends
        n >= 0,
    decreases n,
{
    if n < 10 {
        seq![hex_digit(n as u32)]
    } else {
        dec_udigits(n / 10) + seq![hex_digit((n % 10) as u32)]
    }
}

/// The decimal lexeme of an integer, sign included.
pub open spec fn dec_lex(n: int) -> Seq<char> {
    if n < 0 {
        seq!['-'] + dec_udigits(-n)
    } else {
        dec_udigits(n)
    }
}

/// Appends the decimal digits of an unsigned integer.
fn write_u64_dec(m: u64, out: &mut Vec<char>)
    ensures
        final(out)@ == old(out)@ + dec_udigits(m as int),
    decreases m,
{
    if m < 10 {
        out.push(hex_digit_exec(m as u32));
        proof {
            assert(out@ =~= old(out)@ + dec_udigits(m as int));
        }
    } else {
        write_u64_dec(m / 10, out);
        out.push(hex_digit_exec((m % 10) as u32));
        proof {
            assert(out@ =~= old(out)@ + dec_udigits(m as int));
        }
    }
}

/// Appends the decimal lexeme of a signed integer.
pub fn write_i64_dec(n: i64, out: &mut Vec<char>)
    ensures
        final(out)@ == old(out)@ + dec_lex(n as int),
{
    if n < 0 {
        out.push('-');
        let m: u64 = if n == i64::MIN {
            9223372036854775808u64
        } else {
            (-n) as u64
        };
        proof {
            assert(m as int == -(n as int));
        }
        write_u64_dec(m, out);
        proof {
            assert(out@ =~= old(out)@ + dec_lex(n as int));
        }
    } else {
        write_u64_dec(n as u64, out);
    }
}

/// A JSON-RPC response: a success carrying a result, or a failure carrying
/// an error code and message.  Exactly one of the two exists by shape.
pub enum Response {
    Success { id: Json, result: Json },
    Failure { id: Json, code: i64, message: Vec<char> },
}

/// The wire object a response collapses to: `result` and `error` are
/// mutually exclusive members.
pub open spec fn resp_jval(r: Response) -> JVal {
    match r {
        Response::Success { id, result } => JVal::Obj(
            seq![
                ("jsonrpc"@, JVal::Str("2.0"@)),
                ("id"@, id@),
                ("result"@, result@),
            ],
        ),
        Response::Failure { id, code, message } => JVal::Obj(
            seq![
                ("jsonrpc"@, JVal::Str("2.0"@)),
                ("id"@, id@),
                (
                    "error"@,
                    JVal::Obj(
                        seq![
                            ("code"@, JVal::Num(dec_lex(code as int))),
                            ("message"@, JVal::Str(message@)),
                        ],
                    ),
                ),
            ],
        ),
    }
}

impl Response {
    /// A success envelope around `result`.
    pub fn success(id: Json, result: Json) -> (r: Response)
        ensures
            r == (Response::Success { id, result }),
    {
        Response::Success { id, result }
    }

    /// A failure envelope around `code` and `message`.
    pub fn error(id: Json, code: i64, message: Vec<char>) -> (r: Response)
        ensures
            r == (Response::Failure { id, code, message }),
    {
        Response::Failure { id, code, message }
    }
}

/// Serializes a response to its single wire line (no newline included).
pub fn encode_response(r: &Response) -> (res: Vec<char>)
    ensures
        res@ == ser(resp_jval(*r)),
{
    let ghost model = resp_jval(*r);
    let mut members: Vec<(Vec<char>, Json)> = Vec::new();
    members.push((chars_of("jsonrpc"), Json::Str(chars_of("2.0"))));
    match r {
        Response::Success { id, result } => {
            members.push((chars_of("id"), deep_copy(id)));
            members.push((chars_of("result"), deep_copy(result)));
        },
        Response::Failure { id, code, message } => {
            members.push((chars_of("id"), deep_copy(id)));
            let mut lex: Vec<char> = Vec::new();
            write_i64_dec(*code, &mut lex);
            let mut err_members: Vec<(Vec<char>, Json)> = Vec::new();
            err_members.push((chars_of("code"), Json::Num(lex)));
            err_members.push((chars_of("message"), Json::Str(copy_chars(message.as_slice()))));
            let err = Json::Obj(err_members);
            proof {
                crate::json::lemma_jmembers_of(err->Obj_0@);
                assert(crate::json::jmembers_of(err->Obj_0@) =~= seq![
                    ("code"@, JVal::Num(dec_lex(*code as int))),
                    ("message"@, JVal::Str(message@)),
                ]);
            }
            members.push((chars_of("error"), err));
        },
    }
    let body = Json::Obj(members);
    proof {
        crate::json::lemma_jmembers_of(body->Obj_0@);
        match r {
            Response::Success { id, result } => {
                assert(crate::json::jmembers_of(body->Obj_0@) =~= model->Obj_0);
            },
            Response::Failure { id, code, message } => {
                assert(crate::json::jmembers_of(body->Obj_0@) =~= model->Obj_0);
            },
        }
        assert(body@ == model);
    }
    let mut out: Vec<char> = Vec::new();
    write_val(&body, &mut out);
    out
}

} // verus!
