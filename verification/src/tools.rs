//! The tool executor: argument validation, currency gating, and the
//! request plan for each of the seven tools.
//!
//! A tool run is a tiny state machine.  `tool_start` validates the
//! arguments and either finishes at once (missing argument, unknown tool)
//! or asks for one HTTP round trip.  `tool_resume` folds the outcome of
//! that round trip and either finishes or, for a currency-gated order, asks
//! for the second round trip.  The binary only carries requests and
//! outcomes back and forth.

use vstd::prelude::*;
use crate::json::{JVal, Json, copy_chars, chars_of, eq_chars, append_str, append_chars, spec_get,
    spec_as_str, jvals_of};
use crate::backend::{Backend, HttpRequest, HttpOutcome, spec_classify, order_members};
use crate::registry::{catalog_names, required_keys};

verus! {

/// The text reported for an absent or non-string required argument.
pub open spec fn missing_msg(key: Seq<char>) -> Seq<char> {
    "Missing required argument: "@ + key
}

/// The text reported for a tool name outside the catalog.
pub open spec fn unknown_tool_msg(name: Seq<char>) -> Seq<char> {
    "Unknown tool: "@ + name
}

/// Reads a required string argument, or reports it missing.  A key that is
/// present with a non-string value counts as missing.
pub fn get_str_arg(args: &Json, key: &[char]) -> (r: Result<Vec<char>, Vec<char>>)
    ensures
        match spec_as_str(spec_get(args@, key@)) {
            Some(s) => r matches Ok(v) && v@ == s,
            None => r matches Err(m) && m@ == missing_msg(key@),
        },
{
    match args.get(key) {
        Some(v) => match v.as_str() {
            Some(s) => Ok(copy_chars(s.as_slice())),
            None => {
                let mut msg: Vec<char> = Vec::new();
                append_str(&mut msg, "Missing required argument: ");
                append_chars(&mut msg, key);
                Err(msg)
            },
        },
        None => {
            let mut msg: Vec<char> = Vec::new();
            append_str(&mut msg, "Missing required argument: ");
            append_chars(&mut msg, key);
            Err(msg)
        },
    }
}

/// ASCII lowering of one character.
pub open spec fn lower_char(c: char) -> char {
    if 'A' <= c && c <= 'Z' {
        ((c as u32) + 32) as char
    } else {
        c
    }
}

/// ASCII lowering of a string, character by character.
pub open spec fn spec_lower(s: Seq<char>) -> Seq<char> {
    Seq::new(s.len(), |i: int| lower_char(s[i]))
}

/// Lowers ASCII letters, leaving every other character alone.
pub fn to_lower(s: &[char]) -> (r: Vec<char>)
    ensures
        r@ == spec_lower(s@),
{
    let n = s.len();
    let mut out: Vec<char> = Vec::new();
    for i in 0..n
        invariant
            n == s@.len(),
            out@.len() == i,
            forall|k: int| 0 <= k < i ==> out@[k] == lower_char(s@[k]),
    {
        let c = s[i];
        if 'A' <= c && c <= 'Z' {
            match char::from_u32(c as u32 + 32) {
                Some(d) => {
                    proof {
                        vstd::utf8::char_u32_cast(d, (c as u32 + 32) as u32);
                    }
                    out.push(d);
                },
                None => {
                    proof {
                        assert(false);
                    }
                },
            }
        } else {
            out.push(c);
        }
    }
    proof {
        assert(out@ =~= spec_lower(s@));
    }
    out
}

/// The first required key that is absent from the arguments (or present
/// with a non-string value), if any.
pub open spec fn first_missing(args: JVal, keys: Seq<Seq<char>>) -> Option<Seq<char>>
    decreases keys.len(),
{
    if keys.len() == 0 {
        None
    } else if spec_as_str(spec_get(args, keys[0])) is None {
        Some(keys[0])
    } else {
        first_missing(args, keys.skip(1))
    }
}

/// The string elements of a JSON array, in order, non-strings skipped.
pub open spec fn strs_of(items: Seq<JVal>) -> Seq<Seq<char>>
    decreases items.len(),
{
    if items.len() == 0 {
        Seq::empty()
    } else {
        (match items[0] {
            JVal::Str(s) => seq![s],
            _ => Seq::empty(),
        }) + strs_of(items.skip(1))
    }
}

/// Case-insensitive membership among a list of strings: some member lowers
/// to the same characters as `x`, itself already lowered.
pub open spec fn contains_str_ci(ss: Seq<Seq<char>>, x: Seq<char>) -> bool {
    exists|i: int| 0 <= i < ss.len() && spec_lower(ss[i]) == x
}

/// The strings joined with a comma and a space.
pub open spec fn join_comma(ss: Seq<Seq<char>>) -> Seq<char>
    decreases ss.len(),
{
    if ss.len() == 0 {
        Seq::empty()
    } else if ss.len() == 1 {
        ss[0]
    } else {
        ss[0] + ", "@ + join_comma(ss.skip(1))
    }
}

/// The text reported for a currency outside the supported list.
pub open spec fn invalid_currency_msg(cur: Seq<char>, valid: Seq<Seq<char>>) -> Seq<char> {
    "Invalid pay_currency: '"@ + cur + "'. Supported currencies: "@ + join_comma(valid)
}

/// The `currencies` member of a backend body, when it is an array.
pub open spec fn currencies_of(v: JVal) -> Option<Seq<JVal>> {
    match spec_get(v, "currencies"@) {
        Some(JVal::Arr(items)) => Some(items),
        _ => None,
    }
}

/// What a paused tool run is waiting for.
pub enum Pending {
    /// The one and only request of the operation: its outcome is the tool's
    /// outcome.
    Primary,
    /// A currency list was requested before an order write; the saved
    /// fields build the order request once the currency passes.
    CurrencyGate {
        topup: bool,
        api_key: Vec<char>,
        order_id: Vec<char>,
        package_id: Vec<char>,
        pay_currency: Vec<char>,
        callback_url: Option<Vec<char>>,
    },
}

/// One step of a tool run.
pub enum ToolStep {
    /// The run is over, with the tool's outcome.
    Done(Result<Json, Vec<char>>),
    /// Perform this request and resume with its outcome.
    Call(HttpRequest, Pending),
}

/// Begins a tool run: validates the arguments and plans the first request.
#[verifier::rlimit(60)]
pub fn tool_start(b: &Backend, name: &[char], args: &Json) -> (r: ToolStep)
    ensures
        catalog_names().contains(name@) ==> (match first_missing(args@, required_keys(name@)) {
            Some(k) => r matches ToolStep::Done(Result::Err(m)) && m@ == missing_msg(k),
            None => true,
        }),
        !catalog_names().contains(name@) ==> (r matches ToolStep::Done(Result::Err(m)) && m@
            == unknown_tool_msg(name@)),
        name@ == "register_agent"@ ==> (r matches ToolStep::Call(q, Pending::Primary) && q.post
            && q.url@ == b.base_url@ + "/v1/agents"@ && q.api_key is None && q.body is None),
        name@ == "list_packages"@ && first_missing(args@, required_keys(name@)) is None ==> (
        r matches ToolStep::Call(q, Pending::Primary) && !q.post && q.url@ == b.base_url@
            + "/v1/packages"@ && (q.api_key matches Some(k) && Some(k@) == spec_as_str(
            spec_get(args@, "api_key"@),
        )) && q.body is None),
        name@ == "list_currencies"@ && first_missing(args@, required_keys(name@)) is None ==> (
        r matches ToolStep::Call(q, Pending::Primary) && !q.post && q.url@ == b.base_url@
            + "/v1/currencies"@ && (q.api_key matches Some(k) && Some(k@) == spec_as_str(
            spec_get(args@, "api_key"@),
        )) && q.body is None),
        name@ == "check_order_status"@ && first_missing(args@, required_keys(name@)) is None ==> (
        r matches ToolStep::Call(q, Pending::Primary) && !q.post && (spec_as_str(
            spec_get(args@, "order_id"@),
        ) matches Some(oid) && q.url@ == b.base_url@ + "/v1/orders/"@ + oid + "/status"@) && (
        q.api_key matches Some(k) && Some(k@) == spec_as_str(spec_get(args@, "api_key"@)))
            && q.body is None),
        name@ == "rotate_proxy"@ && first_missing(args@, required_keys(name@)) is None ==> (
        r matches ToolStep::Call(q, Pending::Primary) && q.post && (spec_as_str(
            spec_get(args@, "order_id"@),
        ) matches Some(oid) && q.url@ == b.base_url@ + "/v1/orders/"@ + oid + "/rotate"@) && (
        q.api_key matches Some(k) && Some(k@) == spec_as_str(spec_get(args@, "api_key"@)))
            && q.body is None),
        name@ == "create_order"@ && first_missing(args@, required_keys(name@)) is None ==> (match
        spec_as_str(spec_get(args@, "pay_currency"@)) {
            Some(cur) => r matches ToolStep::Call(
                q,
                Pending::CurrencyGate {
                    topup,
                    api_key,
                    order_id,
                    package_id,
                    pay_currency,
                    callback_url,
                },
            ) && !topup && !q.post && q.url@ == b.base_url@ + "/v1/currencies"@ && (
            q.api_key matches Some(k) && Some(k@) == spec_as_str(spec_get(args@, "api_key"@)))
                && q.body is None && Some(api_key@) == spec_as_str(spec_get(args@, "api_key"@))
                && Some(package_id@) == spec_as_str(spec_get(args@, "package_id"@))
                && pay_currency@ == cur && (match spec_as_str(
                spec_get(args@, "callback_url"@),
            ) {
                Some(u) => callback_url matches Some(cb) && cb@ == u,
                None => callback_url is None,
            }),
            None => r matches ToolStep::Call(q, Pending::Primary) && q.post && q.url@ == b.base_url@
                + "/v1/orders"@ && (q.api_key matches Some(k) && Some(k@) == spec_as_str(
                spec_get(args@, "api_key"@),
            )) && (q.body matches Some(body) && (spec_as_str(
                spec_get(args@, "package_id"@),
            ) matches Some(pk) && body@ == JVal::Obj(
                order_members(pk, None, spec_as_str(spec_get(args@, "callback_url"@))),
            ))),
        }),
        name@ == "topup_order"@ && first_missing(args@, required_keys(name@)) is None ==> (match
        spec_as_str(spec_get(args@, "pay_currency"@)) {
            Some(cur) => r matches ToolStep::Call(
                q,
                Pending::CurrencyGate {
                    topup,
                    api_key,
                    order_id,
                    package_id,
                    pay_currency,
                    callback_url,
                },
            ) && topup && !q.post && q.url@ == b.base_url@ + "/v1/currencies"@ && (
            q.api_key matches Some(k) && Some(k@) == spec_as_str(spec_get(args@, "api_key"@)))
                && q.body is None && Some(api_key@) == spec_as_str(spec_get(args@, "api_key"@))
                && Some(order_id@) == spec_as_str(spec_get(args@, "order_id"@)) && Some(
                package_id@,
            ) == spec_as_str(spec_get(args@, "package_id"@)) && pay_currency@ == cur
                && callback_url is None,
            None => r matches ToolStep::Call(q, Pending::Primary) && q.post && (spec_as_str(
                spec_get(args@, "order_id"@),
            ) matches Some(oid) && q.url@ == b.base_url@ + "/v1/orders/"@ + oid + "/topup"@) && (
            q.api_key matches Some(k) && Some(k@) == spec_as_str(spec_get(args@, "api_key"@)))
                && (q.body matches Some(body) && (spec_as_str(
                spec_get(args@, "package_id"@),
            ) matches Some(pk) && body@ == JVal::Obj(order_members(pk, None, None)))),
        }),
{
    let k_api = chars_of("api_key");
    let k_order = chars_of("order_id");
    let k_package = chars_of("package_id");
    let k_currency = chars_of("pay_currency");
    let k_callback = chars_of("callback_url");
    proof {
        reveal_with_fuel(first_missing, 5);
        reveal_strlit("register_agent");
        reveal_strlit("list_packages");
        reveal_strlit("list_currencies");
        reveal_strlit("create_order");
        reveal_strlit("check_order_status");
        reveal_strlit("topup_order");
        reveal_strlit("rotate_proxy");
        assert("register_agent"@.len() == 14);
        assert("list_packages"@.len() == 13);
        assert("list_currencies"@.len() == 15);
        assert("create_order"@.len() == 12);
        assert("check_order_status"@.len() == 18);
        assert("topup_order"@.len() == 11);
        assert("rotate_proxy"@.len() == 12);
        assert("create_order"@[0] == 'c');
        assert("rotate_proxy"@[0] == 'r');
        assert(catalog_names()[0] == "register_agent"@);
        assert(catalog_names()[1] == "list_packages"@);
        assert(catalog_names()[2] == "list_currencies"@);
        assert(catalog_names()[3] == "create_order"@);
        assert(catalog_names()[4] == "check_order_status"@);
        assert(catalog_names()[5] == "topup_order"@);
        assert(catalog_names()[6] == "rotate_proxy"@);
    }
    if eq_chars(name, chars_of("register_agent").as_slice()) {
        ToolStep::Call(b.register_agent(), Pending::Primary)
    } else if eq_chars(name, chars_of("list_packages").as_slice()) {
        match get_str_arg(args, k_api.as_slice()) {
            Err(m) => ToolStep::Done(Err(m)),
            Ok(api_key) => ToolStep::Call(b.list_packages(api_key.as_slice()), Pending::Primary),
        }
    } else if eq_chars(name, chars_of("list_currencies").as_slice()) {
        match get_str_arg(args, k_api.as_slice()) {
            Err(m) => ToolStep::Done(Err(m)),
            Ok(api_key) => ToolStep::Call(b.list_currencies(api_key.as_slice()), Pending::Primary),
        }
    } else if eq_chars(name, chars_of("create_order").as_slice()) {
        let api_key = match get_str_arg(args, k_api.as_slice()) {
            Err(m) => {
                return ToolStep::Done(Err(m));
            },
            Ok(v) => v,
        };
        let package_id = match get_str_arg(args, k_package.as_slice()) {
            Err(m) => {
                proof {
                    assert(required_keys(name@).skip(1) =~= seq!["package_id"@]);
                }
                return ToolStep::Done(Err(m));
            },
            Ok(v) => v,
        };
        proof {
            assert(required_keys(name@).skip(1) =~= seq!["package_id"@]);
        }
        let pay_currency = match args.get(k_currency.as_slice()) {
            Some(v) => match v.as_str() {
                Some(s) => Some(copy_chars(s.as_slice())),
                None => None,
            },
            None => None,
        };
        let callback_url = match args.get(k_callback.as_slice()) {
            Some(v) => match v.as_str() {
                Some(s) => Some(copy_chars(s.as_slice())),
                None => None,
            },
            None => None,
        };
        match pay_currency {
            Some(cur) => ToolStep::Call(
                b.list_currencies(api_key.as_slice()),
                Pending::CurrencyGate {
                    topup: false,
                    api_key,
                    order_id: Vec::new(),
                    package_id,
                    pay_currency: cur,
                    callback_url,
                },
            ),
            None => ToolStep::Call(
                b.create_order(api_key.as_slice(), package_id.as_slice(), None, callback_url.as_ref()),
                Pending::Primary,
            ),
        }
    } else if eq_chars(name, chars_of("check_order_status").as_slice()) {
        let api_key = match get_str_arg(args, k_api.as_slice()) {
            Err(m) => {
                return ToolStep::Done(Err(m));
            },
            Ok(v) => v,
        };
        match get_str_arg(args, k_order.as_slice()) {
            Err(m) => {
                proof {
                    assert(required_keys(name@).skip(1) =~= seq!["order_id"@]);
                }
                ToolStep::Done(Err(m))
            },
            Ok(order_id) => {
                proof {
                    assert(required_keys(name@).skip(1) =~= seq!["order_id"@]);
                }
                ToolStep::Call(
                    b.check_order_status(api_key.as_slice(), order_id.as_slice()),
                    Pending::Primary,
                )
            },
        }
    } else if eq_chars(name, chars_of("topup_order").as_slice()) {
        let api_key = match get_str_arg(args, k_api.as_slice()) {
            Err(m) => {
                return ToolStep::Done(Err(m));
            },
            Ok(v) => v,
        };
        let order_id = match get_str_arg(args, k_order.as_slice()) {
            Err(m) => {
                proof {
                    assert(required_keys(name@).skip(1) =~= seq!["order_id"@, "package_id"@]);
                }
                return ToolStep::Done(Err(m));
            },
            Ok(v) => v,
        };
        let package_id = match get_str_arg(args, k_package.as_slice()) {
            Err(m) => {
                proof {
                    assert(required_keys(name@).skip(1) =~= seq!["order_id"@, "package_id"@]);
                    assert(required_keys(name@).skip(2) =~= seq!["package_id"@]);
                }
                return ToolStep::Done(Err(m));
            },
            Ok(v) => v,
        };
        proof {
            assert(required_keys(name@).skip(1) =~= seq!["order_id"@, "package_id"@]);
            assert(required_keys(name@).skip(2) =~= seq!["package_id"@]);
        }
        let pay_currency = match args.get(k_currency.as_slice()) {
            Some(v) => match v.as_str() {
                Some(s) => Some(copy_chars(s.as_slice())),
                None => None,
            },
            None => None,
        };
        match pay_currency {
            Some(cur) => ToolStep::Call(
                b.list_currencies(api_key.as_slice()),
                Pending::CurrencyGate {
                    topup: true,
                    api_key,
                    order_id,
                    package_id,
                    pay_currency: cur,
                    callback_url: None,
                },
            ),
            None => ToolStep::Call(
                b.topup_order(api_key.as_slice(), order_id.as_slice(), package_id.as_slice(), None),
                Pending::Primary,
            ),
        }
    } else if eq_chars(name, chars_of("rotate_proxy").as_slice()) {
        let api_key = match get_str_arg(args, k_api.as_slice()) {
            Err(m) => {
                return ToolStep::Done(Err(m));
            },
            Ok(v) => v,
        };
        match get_str_arg(args, k_order.as_slice()) {
            Err(m) => {
                proof {
                    assert(required_keys(name@).skip(1) =~= seq!["order_id"@]);
                }
                ToolStep::Done(Err(m))
            },
            Ok(order_id) => {
                proof {
                    assert(required_keys(name@).skip(1) =~= seq!["order_id"@]);
                }
                ToolStep::Call(
                    b.rotate_proxy(api_key.as_slice(), order_id.as_slice()),
                    Pending::Primary,
                )
            },
        }
    } else {
        let mut msg: Vec<char> = Vec::new();
        append_str(&mut msg, "Unknown tool: ");
        append_chars(&mut msg, name);
        ToolStep::Done(Err(msg))
    }
}

/// The request a passed currency gate goes on to.
pub open spec fn gate_request(
    b: Backend,
    topup: bool,
    api_key: Seq<char>,
    order_id: Seq<char>,
    package_id: Seq<char>,
    pay_currency: Seq<char>,
    callback_url: Option<Seq<char>>,
    r: ToolStep,
) -> bool {
    if topup {
        r matches ToolStep::Call(q, Pending::Primary) && q.post && q.url@ == b.base_url@
            + "/v1/orders/"@ + order_id + "/topup"@ && (q.api_key matches Some(k) && k@ == api_key)
            && (q.body matches Some(body) && body@ == JVal::Obj(
            order_members(package_id, Some(pay_currency), None),
        ))
    } else {
        r matches ToolStep::Call(q, Pending::Primary) && q.post && q.url@ == b.base_url@
            + "/v1/orders"@ && (q.api_key matches Some(k) && k@ == api_key) && (
        q.body matches Some(body) && body@ == JVal::Obj(
            order_members(package_id, Some(pay_currency), callback_url),
        ))
    }
}

/// `strs_of` of a longer prefix extends the shorter one.
proof fn lemma_strs_snoc(s: Seq<JVal>, x: JVal)
    ensures
        strs_of(s.push(x)) == strs_of(s) + (match x {
            JVal::Str(t) => seq![t],
            _ => Seq::<Seq<char>>::empty(),
        }),
    decreases s.len(),
{
    let tail = (match x {
        JVal::Str(t) => seq![t],
        _ => Seq::<Seq<char>>::empty(),
    });
    if s.len() == 0 {
        assert(s.push(x)[0] == x);
        assert(s.push(x).skip(1) =~= Seq::<JVal>::empty());
        assert(strs_of(Seq::<JVal>::empty()) =~= Seq::<Seq<char>>::empty());
        assert(strs_of(s.push(x)) =~= strs_of(s) + tail);
    } else {
        assert(s.push(x)[0] == s[0]);
        assert(s.push(x).skip(1) =~= s.skip(1).push(x));
        lemma_strs_snoc(s.skip(1), x);
        assert(strs_of(s.push(x)) =~= strs_of(s) + tail);
    }
}

/// Collects the string elements of a JSON array, in order.
fn collect_strs(items: &Vec<Json>) -> (r: Vec<Vec<char>>)
    ensures
        crate::registry::keys_of(r@) == strs_of(jvals_of(items@)),
{
    let n = items.len();
    proof {
        crate::json::lemma_jvals_of(items@);
        assert(jvals_of(items@).take(0) =~= Seq::<JVal>::empty());
        assert(strs_of(Seq::<JVal>::empty()) =~= Seq::<Seq<char>>::empty());
        crate::registry::lemma_keys_of(Seq::<Vec<char>>::empty());
        assert(crate::registry::keys_of(Seq::<Vec<char>>::empty()) =~= Seq::<Seq<char>>::empty());
    }
    let mut out: Vec<Vec<char>> = Vec::new();
    for i in 0..n
        invariant
            n == items@.len(),
            jvals_of(items@).len() == n,
            forall|k: int| 0 <= k < n ==> jvals_of(items@)[k] == crate::json::jval_of(
                #[trigger] items@[k],
            ),
            crate::registry::keys_of(out@) == strs_of(jvals_of(items@).take(i as int)),
    {
        proof {
            lemma_strs_snoc(jvals_of(items@).take(i as int), jvals_of(items@)[i as int]);
            assert(jvals_of(items@).take(i as int).push(jvals_of(items@)[i as int]) =~= jvals_of(
                items@,
            ).take(i + 1));
        }
        match items[i].as_str() {
            Some(s) => {
                let c = copy_chars(s.as_slice());
                proof {
                    crate::registry::lemma_keys_of(out@.push(c));
                    crate::registry::lemma_keys_of(out@);
                    assert(crate::registry::keys_of(out@.push(c)) =~= strs_of(jvals_of(
                        items@,
                    ).take(i + 1)));
                }
                out.push(c);
            },
            None => {
                proof {
                    assert(strs_of(jvals_of(items@).take(i + 1)) =~= crate::registry::keys_of(
                        out@,
                    ));
                }
            },
        }
    }
    proof {
        assert(jvals_of(items@).take(n as int) =~= jvals_of(items@));
    }
    out
}

/// Appends the strings from position `i` on, comma separated.
fn append_joined(ss: &Vec<Vec<char>>, i: usize, out: &mut Vec<char>)
    requires
        i < ss@.len(),
    ensures
        final(out)@ == old(out)@ + join_comma(crate::registry::keys_of(ss@).skip(i as int)),
    decreases ss@.len() - i,
{
    proof {
        crate::registry::lemma_keys_of(ss@);
        assert(crate::registry::keys_of(ss@).skip(i as int)[0] == crate::registry::keys_of(
            ss@,
        )[i as int]);
    }
    let n = ss.len();
    append_chars(out, ss[i].as_slice());
    if i + 1 < n {
        append_str(out, ", ");
        append_joined(ss, i + 1, out);
        proof {
            assert(crate::registry::keys_of(ss@).skip(i as int).skip(1)
                =~= crate::registry::keys_of(ss@).skip(i + 1));
            assert(out@ =~= old(out)@ + join_comma(crate::registry::keys_of(ss@).skip(i as int)));
        }
    } else {
        proof {
            assert(crate::registry::keys_of(ss@).skip(i as int).len() == 1);
            assert(out@ =~= old(out)@ + join_comma(crate::registry::keys_of(ss@).skip(i as int)));
        }
    }
}

/// Resumes a tool run with the outcome of the round trip it asked for.
#[verifier::rlimit(60)]
pub fn tool_resume(b: &Backend, p: Pending, outcome: &HttpOutcome) -> (r: ToolStep)
    requires
        outcome matches HttpOutcome::Response { status, body } ==> body@.len() + 2 <= usize::MAX,
    ensures
        p is Primary ==> (match spec_classify(*outcome) {
            Ok(v) => r matches ToolStep::Done(Result::Ok(j)) && j@ == v,
            Err(m) => r matches ToolStep::Done(Result::Err(mm)) && mm@ == m,
        }),
        p matches Pending::CurrencyGate {
            topup,
            api_key,
            order_id,
            package_id,
            pay_currency,
            callback_url,
        } ==> (match spec_classify(*outcome) {
            Err(m) => r matches ToolStep::Done(Result::Err(mm)) && mm@ == m,
            Ok(v) => match currencies_of(v) {
                Some(items) => if contains_str_ci(strs_of(items), spec_lower(pay_currency@)) {
                    gate_request(
                        *b,
                        topup,
                        api_key@,
                        order_id@,
                        package_id@,
                        pay_currency@,
                        match callback_url {
                            Some(u) => Some(u@),
                            None => None,
                        },
                        r,
                    )
                } else {
                    r matches ToolStep::Done(Result::Err(mm)) && mm@ == invalid_currency_msg(
                        pay_currency@,
                        strs_of(items),
                    )
                },
                None => gate_request(
                    *b,
                    topup,
                    api_key@,
                    order_id@,
                    package_id@,
                    pay_currency@,
                    match callback_url {
                        Some(u) => Some(u@),
                        None => None,
                    },
                    r,
                ),
            },
        }),
{
    let classified = crate::backend::classify_response(outcome);
    match p {
        Pending::Primary => ToolStep::Done(classified),
        Pending::CurrencyGate { topup, api_key, order_id, package_id, pay_currency, callback_url } => {
            let v = match classified {
                Err(m) => {
                    return ToolStep::Done(Err(m));
                },
                Ok(v) => v,
            };
            let k_currencies = chars_of("currencies");
            let listed = match v.get(k_currencies.as_slice()) {
                Some(c) => match c.as_arr() {
                    Some(items) => Some(collect_strs(items)),
                    None => None,
                },
                None => None,
            };
            match listed {
                Some(ss) => {
                    let low = to_lower(pay_currency.as_slice());
                    let mut found = false;
                    let n = ss.len();
                    proof {
                        crate::registry::lemma_keys_of(ss@);
                    }
                    for i in 0..n
                        invariant
                            n == ss@.len(),
                            crate::registry::keys_of(ss@).len() == n,
                            forall|k: int|
                                0 <= k < n ==> #[trigger] crate::registry::keys_of(ss@)[k]
                                    == ss@[k]@,
                            low@ == spec_lower(pay_currency@),
                            found == exists|k: int|
                                0 <= k < i && spec_lower(
                                    #[trigger] crate::registry::keys_of(ss@)[k],
                                ) == low@,
                    {
                        let member_low = to_lower(ss[i].as_slice());
                        let hit = eq_chars(member_low.as_slice(), low.as_slice());
                        proof {
                            assert(crate::registry::keys_of(ss@)[i as int] == ss@[i as int]@);
                        }
                        if hit {
                            found = true;
                        }
                    }
                    if found {
                        finish_gate(b, topup, api_key, order_id, package_id, pay_currency, callback_url)
                    } else {
                        let mut msg: Vec<char> = Vec::new();
                        append_str(&mut msg, "Invalid pay_currency: '");
                        append_chars(&mut msg, pay_currency.as_slice());
                        append_str(&mut msg, "'. Supported currencies: ");
                        if ss.len() > 0 {
                            proof {
                                assert(crate::registry::keys_of(ss@).skip(0)
                                    =~= crate::registry::keys_of(ss@));
                            }
                            append_joined(&ss, 0, &mut msg);
                        }
                        proof {
                            if crate::registry::keys_of(ss@).len() == 0 {
                                assert(join_comma(crate::registry::keys_of(ss@))
                                    =~= Seq::<char>::empty());
                            }
                            assert(msg@ =~= invalid_currency_msg(
                                pay_currency@,
                                crate::registry::keys_of(ss@),
                            ));
                        }
                        ToolStep::Done(Err(msg))
                    }
                },
                None => finish_gate(
                    b,
                    topup,
                    api_key,
                    order_id,
                    package_id,
                    pay_currency,
                    callback_url,
                ),
            }
        },
    }
}

/// Builds the order request a passed gate goes on to.
fn finish_gate(
    b: &Backend,
    topup: bool,
    api_key: Vec<char>,
    order_id: Vec<char>,
    package_id: Vec<char>,
    pay_currency: Vec<char>,
    callback_url: Option<Vec<char>>,
) -> (r: ToolStep)
    ensures
        gate_request(
            *b,
            topup,
            api_key@,
            order_id@,
            package_id@,
            pay_currency@,
            match callback_url {
                Some(u) => Some(u@),
                None => None,
            },
            r,
        ),
{
    if topup {
        ToolStep::Call(
            b.topup_order(
                api_key.as_slice(),
                order_id.as_slice(),
                package_id.as_slice(),
                Some(&pay_currency),
            ),
            Pending::Primary,
        )
    } else {
        ToolStep::Call(
            b.create_order(
                api_key.as_slice(),
                package_id.as_slice(),
                Some(&pay_currency),
                callback_url.as_ref(),
            ),
            Pending::Primary,
        )
    }
}

} // verus!
