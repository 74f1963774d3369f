//! The ProxyBase REST surface: request planning and response classification.
//!
//! Nothing here touches the network.  A backend operation is described as a
//! plain [`HttpRequest`] value; the binary performs it and hands the raw
//! outcome back, and [`classify_response`] folds that outcome into either
//! the decoded JSON body or an error string, exactly as the spec functions
//! say.

use vstd::prelude::*;
use crate::json::{JVal, Json, append_str, append_chars, copy_chars, spec_get};
use crate::parse::{parse_text, parse_chars};
use crate::ser::{ser, to_text, write_val};
use crate::envelope::{dec_udigits, write_i64_dec, dec_lex};

verus! {

/// One outbound HTTP request, fully determined before it is sent.
pub struct HttpRequest {
    /// True for POST, false for GET.
    pub post: bool,
    pub url: Vec<char>,
    /// The API key to send in the key header, when the operation is
    /// authenticated.
    pub api_key: Option<Vec<char>>,
    /// The JSON body, for write operations.
    pub body: Option<Json>,
}

/// What came back from one HTTP round trip.
pub enum HttpOutcome {
    /// A response arrived: its status code and its body text.
    Response { status: u16, body: Vec<char> },
    /// The transport failed; the text describes the failure.
    Transport(Vec<char>),
}

/// The base URL with every trailing slash removed.
pub open spec fn trim_slashes(s: Seq<char>) -> Seq<char>
    decreases s.len(),
{
    if s.len() > 0 && s[s.len() - 1] == '/' {
        trim_slashes(s.take(s.len() - 1))
    } else {
        s
    }
}

/// A handle on the backend: its normalized base URL.
pub struct Backend {
    pub base_url: Vec<char>,
}

impl Backend {
    /// Keeps the base URL with trailing slashes stripped.
    pub fn new(base: &[char]) -> (r: Backend)
        ensures
            r.base_url@ == trim_slashes(base@),
    {
        let mut e = base.len();
        proof {
            assert(base@.take(base@.len() as int) =~= base@);
        }
        while e > 0 && base[e - 1] == '/'
            invariant
                e <= base@.len(),
                trim_slashes(base@) == trim_slashes(base@.take(e as int)),
            decreases e,
        {
            proof {
                assert(base@.take(e as int)[e - 1] == base@[e - 1]);
                assert(base@.take(e as int).take(e - 1) =~= base@.take(e - 1));
            }
            e = e - 1;
        }
        proof {
            if e > 0 {
                assert(base@.take(e as int)[e - 1] == base@[e - 1]);
            }
        }
        let kept = crate::parse::copy_range(base, 0, e);
        proof {
            assert(base@.subrange(0, e as int) =~= base@.take(e as int));
        }
        Backend { base_url: kept }
    }

    /// The order path segment: `/v1/orders/{order_id}/{op}`.
    fn order_url(&self, order_id: &[char], op: &str) -> (r: Vec<char>)
        ensures
            r@ == self.base_url@ + "/v1/orders/"@ + order_id@ + op@,
    {
        let mut url = copy_chars(self.base_url.as_slice());
        append_str(&mut url, "/v1/orders/");
        append_chars(&mut url, order_id);
        append_str(&mut url, op);
        url
    }

    /// POST `/v1/agents`, unauthenticated, no body.
    pub fn register_agent(&self) -> (r: HttpRequest)
        ensures
            r.post,
            r.url@ == self.base_url@ + "/v1/agents"@,
            r.api_key is None,
            r.body is None,
    {
        let mut url = copy_chars(self.base_url.as_slice());
        append_str(&mut url, "/v1/agents");
        HttpRequest { post: true, url, api_key: None, body: None }
    }

    /// GET `/v1/packages` with the API key header.
    pub fn list_packages(&self, api_key: &[char]) -> (r: HttpRequest)
        ensures
            !r.post,
            r.url@ == self.base_url@ + "/v1/packages"@,
            r.api_key matches Some(k) && k@ == api_key@,
            r.body is None,
    {
        let mut url = copy_chars(self.base_url.as_slice());
        append_str(&mut url, "/v1/packages");
        HttpRequest { post: false, url, api_key: Some(copy_chars(api_key)), body: None }
    }

    /// GET `/v1/currencies` with the API key header.
    pub fn list_currencies(&self, api_key: &[char]) -> (r: HttpRequest)
        ensures
            !r.post,
            r.url@ == self.base_url@ + "/v1/currencies"@,
            r.api_key matches Some(k) && k@ == api_key@,
            r.body is None,
    {
        let mut url = copy_chars(self.base_url.as_slice());
        append_str(&mut url, "/v1/currencies");
        HttpRequest { post: false, url, api_key: Some(copy_chars(api_key)), body: None }
    }

    /// POST `/v1/orders` with the fields actually supplied: optional fields
    /// are left out of the body entirely.
    pub fn create_order(
        &self,
        api_key: &[char],
        package_id: &[char],
        pay_currency: Option<&Vec<char>>,
        callback_url: Option<&Vec<char>>,
    ) -> (r: HttpRequest)
        ensures
            r.post,
            r.url@ == self.base_url@ + "/v1/orders"@,
            r.api_key matches Some(k) && k@ == api_key@,
            r.body matches Some(b) && b@ == JVal::Obj(
                order_members(
                    package_id@,
                    match pay_currency {
                        Some(c) => Some(c@),
                        None => None,
                    },
                    match callback_url {
                        Some(u) => Some(u@),
                        None => None,
                    },
                ),
            ),
    {
        let mut url = copy_chars(self.base_url.as_slice());
        append_str(&mut url, "/v1/orders");
        let mut members: Vec<(Vec<char>, Json)> = Vec::new();
        members.push((crate::json::chars_of("package_id"), Json::Str(copy_chars(package_id))));
        match pay_currency {
            Some(c) => {
                members.push(
                    (crate::json::chars_of("pay_currency"), Json::Str(copy_chars(c.as_slice()))),
                );
            },
            None => {},
        }
        match callback_url {
            Some(u) => {
                members.push(
                    (crate::json::chars_of("callback_url"), Json::Str(copy_chars(u.as_slice()))),
                );
            },
            None => {},
        }
        let body = Json::Obj(members);
        proof {
            crate::json::lemma_jmembers_of(body->Obj_0@);
            assert(crate::json::jmembers_of(body->Obj_0@) =~= order_members(
                package_id@,
                match pay_currency {
                    Some(c) => Some(c@),
                    None => None,
                },
                match callback_url {
                    Some(u) => Some(u@),
                    None => None,
                },
            ));
        }
        HttpRequest { post: true, url, api_key: Some(copy_chars(api_key)), body: Some(body) }
    }

    /// GET `/v1/orders/{order_id}/status` with the API key header.
    pub fn check_order_status(&self, api_key: &[char], order_id: &[char]) -> (r: HttpRequest)
        ensures
            !r.post,
            r.url@ == self.base_url@ + "/v1/orders/"@ + order_id@ + "/status"@,
            r.api_key matches Some(k) && k@ == api_key@,
            r.body is None,
    {
        HttpRequest {
            post: false,
            url: self.order_url(order_id, "/status"),
            api_key: Some(copy_chars(api_key)),
            body: None,
        }
    }

    /// POST `/v1/orders/{order_id}/topup` with the fields actually supplied.
    pub fn topup_order(
        &self,
        api_key: &[char],
        order_id: &[char],
        package_id: &[char],
        pay_currency: Option<&Vec<char>>,
    ) -> (r: HttpRequest)
        ensures
            r.post,
            r.url@ == self.base_url@ + "/v1/orders/"@ + order_id@ + "/topup"@,
            r.api_key matches Some(k) && k@ == api_key@,
            r.body matches Some(b) && b@ == JVal::Obj(
                order_members(
                    package_id@,
                    match pay_currency {
                        Some(c) => Some(c@),
                        None => None,
                    },
                    None,
                ),
            ),
    {
        let mut members: Vec<(Vec<char>, Json)> = Vec::new();
        members.push((crate::json::chars_of("package_id"), Json::Str(copy_chars(package_id))));
        match pay_currency {
            Some(c) => {
                members.push(
                    (crate::json::chars_of("pay_currency"), Json::Str(copy_chars(c.as_slice()))),
                );
            },
            None => {},
        }
        let body = Json::Obj(members);
        proof {
            crate::json::lemma_jmembers_of(body->Obj_0@);
            assert(crate::json::jmembers_of(body->Obj_0@) =~= order_members(
                package_id@,
                match pay_currency {
                    Some(c) => Some(c@),
                    None => None,
                },
                None,
            ));
        }
        HttpRequest {
            post: true,
            url: self.order_url(order_id, "/topup"),
            api_key: Some(copy_chars(api_key)),
            body: Some(body),
        }
    }

    /// POST `/v1/orders/{order_id}/rotate` with the API key header.
    pub fn rotate_proxy(&self, api_key: &[char], order_id: &[char]) -> (r: HttpRequest)
        ensures
            r.post,
            r.url@ == self.base_url@ + "/v1/orders/"@ + order_id@ + "/rotate"@,
            r.api_key matches Some(k) && k@ == api_key@,
            r.body is None,
    {
        HttpRequest {
            post: true,
            url: self.order_url(order_id, "/rotate"),
            api_key: Some(copy_chars(api_key)),
            body: None,
        }
    }
}

/// The body of an order write: `package_id` always, the optional fields
/// only when supplied.
pub open spec fn order_members(
    pk: Seq<char>,
    cur: Option<Seq<char>>,
    cb: Option<Seq<char>>,
) -> Seq<(Seq<char>, JVal)> {
    let base = seq![("package_id"@, JVal::Str(pk))];
    let with_cur = match cur {
        Some(c) => base.push(("pay_currency"@, JVal::Str(c))),
        None => base,
    };
    match cb {
        Some(u) => with_cur.push(("callback_url"@, JVal::Str(u))),
        None => with_cur,
    }
}

/// The fixed text used when a response body is not JSON.
pub open spec fn parse_fail_msg() -> Seq<char> {
    "Parse error: response body is not valid JSON"@
}

/// How an HTTP outcome is folded: transport failures and non-JSON bodies
/// become error text, non-2xx statuses embed the numeric status and the
/// re-serialized body, and a 2xx status passes the decoded body through.
pub open spec fn spec_classify(o: HttpOutcome) -> Result<JVal, Seq<char>> {
    match o {
        HttpOutcome::Transport(e) => Err("HTTP error: "@ + e@),
        HttpOutcome::Response { status, body } => match parse_text(body@) {
            None => Err(parse_fail_msg()),
            Some(v) => if 200 <= status && status < 300 {
                Ok(v)
            } else {
                Err("API error ("@ + dec_udigits(status as int) + "): "@ + ser(v))
            },
        },
    }
}

/// Folds one HTTP outcome, exactly as [`spec_classify`] says.
pub fn classify_response(o: &HttpOutcome) -> (r: Result<Json, Vec<char>>)
    requires
        o matches HttpOutcome::Response { status, body } ==> body@.len() + 2 <= usize::MAX,
    ensures
        match (r, spec_classify(*o)) {
            (Ok(j), Ok(v)) => j@ == v,
            (Err(m), Err(sm)) => m@ == sm,
            _ => false,
        },
{
    match o {
        HttpOutcome::Transport(e) => {
            let mut msg: Vec<char> = Vec::new();
            append_str(&mut msg, "HTTP error: ");
            append_chars(&mut msg, e.as_slice());
            Err(msg)
        },
        HttpOutcome::Response { status, body } => {
            match parse_chars(body.as_slice()) {
                None => {
                    let mut msg: Vec<char> = Vec::new();
                    append_str(&mut msg, "Parse error: response body is not valid JSON");
                    Err(msg)
                },
                Some(v) => {
                    if 200 <= *status && *status < 300 {
                        Ok(v)
                    } else {
                        let mut msg: Vec<char> = Vec::new();
                        append_str(&mut msg, "API error (");
                        let mut digits: Vec<char> = Vec::new();
                        write_i64_dec(*status as i64, &mut digits);
                        proof {
                            assert(dec_lex(*status as int) == dec_udigits(*status as int));
                        }
                        append_chars(&mut msg, digits.as_slice());
                        append_str(&mut msg, "): ");
                        let rendered = to_text(&v);
                        append_chars(&mut msg, rendered.as_slice());
                        Err(msg)
                    }
                },
            }
        },
    }
}

} // verus!
