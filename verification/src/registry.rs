//! The static tool catalog the bridge advertises.
//!
//! Seven tools, fixed at startup, each with a name, a human-readable
//! description and a JSON Schema over string-typed arguments.  The catalog
//! is the external contract of the bridge: [`catalog`] is its spec-level
//! constant, [`get_tools`] is proved to build exactly it, and
//! [`tool_to_json`] is proved to advertise exactly the wire object
//! [`tool_jval`] for each entry.

use vstd::prelude::*;
use crate::json::{JVal, Json, chars_of, jvals_of, jmembers_of, lemma_jvals_of, lemma_jmembers_of,
    lemma_jvals_push, lemma_jmembers_push, spec_get, spec_lookup};

verus! {

/// One advertised tool: its name, description and argument schema, the
/// latter given as the property list and the required-key list.
pub struct ToolDef {
    pub name: Vec<char>,
    pub description: Vec<char>,
    pub properties: Vec<(Vec<char>, Vec<char>)>,
    pub required: Vec<Vec<char>>,
}

/// The model of one tool entry.
#[verifier::ext_equal]
pub struct ToolDefV {
    pub name: Seq<char>,
    pub description: Seq<char>,
    pub properties: Seq<(Seq<char>, Seq<char>)>,
    pub required: Seq<Seq<char>>,
}

/// The models of a sequence of property pairs.
pub open spec fn pairs_of(s: Seq<(Vec<char>, Vec<char>)>) -> Seq<(Seq<char>, Seq<char>)>
    decreases s.len(),
{
    if s.len() == 0 {
        Seq::empty()
    } else {
        seq![(s[0].0@, s[0].1@)] + pairs_of(s.skip(1))
    }
}

/// Each model in `pairs_of` is the view of the matching pair.
pub proof fn lemma_pairs_of(s: Seq<(Vec<char>, Vec<char>)>)
    ensures
        pairs_of(s).len() == s.len(),
        forall|i: int| 0 <= i < s.len() ==> #[trigger] pairs_of(s)[i] == (s[i].0@, s[i].1@),
    decreases s.len(),
{
    if s.len() > 0 {
        lemma_pairs_of(s.skip(1));
        assert forall|i: int| 0 <= i < s.len() implies #[trigger] pairs_of(s)[i] == (
        s[i].0@,
        s[i].1@,
        ) by {
            if i > 0 {
                assert(s.skip(1)[i - 1] == s[i]);
            }
        }
    }
}

/// The model of one tool entry of the executable catalog.
pub open spec fn td_view(t: ToolDef) -> ToolDefV {
    ToolDefV {
        name: t.name@,
        description: t.description@,
        properties: pairs_of(t.properties@),
        required: keys_of(t.required@),
    }
}

/// The names of the seven tools, in catalog order.
pub open spec fn catalog_names() -> Seq<Seq<char>> {
    seq![
        "register_agent"@,
        "list_packages"@,
        "list_currencies"@,
        "create_order"@,
        "check_order_status"@,
        "topup_order"@,
        "rotate_proxy"@,
    ]
}

/// The argument keys each tool requires, all of string type.
pub open spec fn required_keys(name: Seq<char>) -> Seq<Seq<char>> {
    if name == "register_agent"@ {
        seq![]
    } else if name == "list_packages"@ || name == "list_currencies"@ {
        seq!["api_key"@]
    } else if name == "create_order"@ {
        seq!["api_key"@, "package_id"@]
    } else if name == "check_order_status"@ || name == "rotate_proxy"@ {
        seq!["api_key"@, "order_id"@]
    } else if name == "topup_order"@ {
        seq!["api_key"@, "order_id"@, "package_id"@]
    } else {
        seq![]
    }
}

/// The whole advertised catalog, as a constant.
pub open spec fn catalog() -> Seq<ToolDefV> {
    seq![
        ToolDefV {
            name: "register_agent"@,
            description: "Register a new AI agent with ProxyBase and receive an API key. This is the first step — you need an API key to use all other tools. The API key should be saved and reused for subsequent requests."@,
            properties: seq![],
            required: seq![],
        },
        ToolDefV {
            name: "list_packages"@,
            description: "List all available proxy bandwidth packages with pricing. Each package includes a bandwidth allocation (in bytes), price (in USD), proxy type, and target country."@,
            properties: seq![("api_key"@, "Your ProxyBase API key (starts with pk_)"@)],
            required: seq!["api_key"@],
        },
        ToolDefV {
            name: "list_currencies"@,
            description: "List all available payment currencies (cryptocurrencies) that can be used for the pay_currency field when creating an order or topping up. These are the coins enabled on the payment provider's merchant account. You MUST call this before creating an order to know which pay_currency values are valid."@,
            properties: seq![("api_key"@, "Your ProxyBase API key (starts with pk_)"@)],
            required: seq!["api_key"@],
        },
        ToolDefV {
            name: "create_order"@,
            description: "Create a new proxy order. This generates a cryptocurrency payment invoice. Once payment is confirmed via the blockchain, your SOCKS5 proxy credentials will be provisioned automatically. Poll check_order_status to monitor payment and get credentials."@,
            properties: seq![
                ("api_key"@, "Your ProxyBase API key (starts with pk_)"@),
                ("package_id"@, "The package ID to purchase (e.g., 'us_residential_1gb')"@),
                (
                    "pay_currency"@,
                    "Cryptocurrency to pay with. Use list_currencies to get valid values. Defaults to 'usdttrc20'."@,
                ),
                (
                    "callback_url"@,
                    "Optional webhook URL to receive status notifications (payment confirmed, bandwidth 80%/95%, exhausted)"@,
                ),
            ],
            required: seq!["api_key"@, "package_id"@],
        },
        ToolDefV {
            name: "check_order_status"@,
            description: "Check the current status of an order. Returns payment status, bandwidth usage, and SOCKS5 proxy credentials (host:port:username:password) once the proxy is active. Statuses: payment_pending → confirming → paid → proxy_active → bandwidth_exhausted."@,
            properties: seq![
                ("api_key"@, "Your ProxyBase API key (starts with pk_)"@),
                ("order_id"@, "The order ID returned from create_order"@),
            ],
            required: seq!["api_key"@, "order_id"@],
        },
        ToolDefV {
            name: "topup_order"@,
            description: "Add more bandwidth to an existing order. Creates a new payment invoice for the additional bandwidth. The proxy credentials remain the same — only the bandwidth allowance increases. Can also reactivate an exhausted proxy."@,
            properties: seq![
                ("api_key"@, "Your ProxyBase API key (starts with pk_)"@),
                ("order_id"@, "The order ID to top up"@),
                ("package_id"@, "The bandwidth package to add (e.g., 'us_residential_1gb')"@),
                (
                    "pay_currency"@,
                    "Cryptocurrency to pay with. Use list_currencies to get valid values. Defaults to 'usdttrc20'."@,
                ),
            ],
            required: seq!["api_key"@, "order_id"@, "package_id"@],
        },
        ToolDefV {
            name: "rotate_proxy"@,
            description: "Rotate the proxy to get a fresh IP address. This calls the upstream partner's reset endpoint to invalidate the current session and assign a new IP. Only works on orders with proxy_active status. After rotation, your next SOCKS5 connection will use a new IP."@,
            properties: seq![
                ("api_key"@, "Your ProxyBase API key (starts with pk_)"@),
                ("order_id"@, "The order ID whose proxy should be rotated"@),
            ],
            required: seq!["api_key"@, "order_id"@],
        },
    ]
}

/// The catalog's names are `catalog_names`, in order.
pub proof fn lemma_catalog_names()
    ensures
        catalog().len() == catalog_names().len(),
        forall|i: int| 0 <= i < catalog().len() ==> #[trigger] catalog()[i].name
            == catalog_names()[i],
{
}

/// The models of a sequence of key vectors.
pub open spec fn keys_of(s: Seq<Vec<char>>) -> Seq<Seq<char>>
    decreases s.len(),
{
    if s.len() == 0 {
        Seq::empty()
    } else {
        seq![s[0]@] + keys_of(s.skip(1))
    }
}

/// Each model in `keys_of` is the view of the matching key.
pub proof fn lemma_keys_of(s: Seq<Vec<char>>)
    ensures
        keys_of(s).len() == s.len(),
        forall|i: int| 0 <= i < s.len() ==> #[trigger] keys_of(s)[i] == s[i]@,
    decreases s.len(),
{
    if s.len() > 0 {
        lemma_keys_of(s.skip(1));
        assert forall|i: int| 0 <= i < s.len() implies #[trigger] keys_of(s)[i] == s[i]@ by {
            if i > 0 {
                assert(s.skip(1)[i - 1] == s[i]);
            }
        }
    }
}

/// Builds one tool entry from its literal pieces.
fn tool(name: &str, description: &str) -> (t: ToolDef)
    ensures
        t.name@ == name@,
        t.description@ == description@,
        t.properties@.len() == 0,
        t.required@.len() == 0,
{
    ToolDef {
        name: chars_of(name),
        description: chars_of(description),
        properties: Vec::new(),
        required: Vec::new(),
    }
}

/// Adds a string-typed property and, when `req` is set, marks it required.
fn prop(t: &mut ToolDef, name: &str, description: &str, req: bool)
    ensures
        final(t).name@ == old(t).name@,
        final(t).description@ == old(t).description@,
        pairs_of(final(t).properties@) == pairs_of(old(t).properties@).push((name@, description@)),
        keys_of(final(t).required@) == if req {
            keys_of(old(t).required@).push(name@)
        } else {
            keys_of(old(t).required@)
        },
{
    let pn = chars_of(name);
    let pd = chars_of(description);
    proof {
        lemma_pairs_of(t.properties@.push((pn, pd)));
        lemma_pairs_of(t.properties@);
        assert(pairs_of(t.properties@.push((pn, pd))) =~= pairs_of(t.properties@).push(
            (name@, description@),
        ));
    }
    t.properties.push((pn, pd));
    if req {
        let k = chars_of(name);
        proof {
            lemma_keys_of(t.required@.push(k));
            lemma_keys_of(t.required@);
            assert(keys_of(t.required@.push(k)) =~= keys_of(t.required@).push(name@));
        }
        t.required.push(k);
    }
}

/// The documented prefix reminder shared by every `api_key` property.
const API_KEY_DESC: &'static str = "Your ProxyBase API key (starts with pk_)";

/// The fixed, ordered catalog of the seven tools: exactly [`catalog`].
pub fn get_tools() -> (r: Vec<ToolDef>)
    ensures
        r@.len() == 7,
        forall|i: int| 0 <= i < 7 ==> td_view(#[trigger] r@[i]) == catalog()[i],
        forall|i: int| 0 <= i < 7 ==> (#[trigger] r@[i].name)@ == catalog_names()[i],
        forall|i: int| 0 <= i < 7 ==> (#[trigger] r@[i].description)@.len() > 0,
        forall|i: int|
            0 <= i < 7 ==> keys_of((#[trigger] r@[i].required)@) == required_keys(r@[i].name@),
{
    proof {
        reveal_strlit("register_agent");
        reveal_strlit("list_packages");
        reveal_strlit("list_currencies");
        reveal_strlit("create_order");
        reveal_strlit("check_order_status");
        reveal_strlit("topup_order");
        reveal_strlit("rotate_proxy");
        reveal_strlit("api_key");
        reveal_strlit("order_id");
        reveal_strlit("package_id");
        assert("register_agent"@.len() == 14);
        assert("list_packages"@.len() == 13);
        assert("list_currencies"@.len() == 15);
        assert("create_order"@.len() == 12);
        assert("check_order_status"@.len() == 18);
        assert("topup_order"@.len() == 11);
        assert("rotate_proxy"@.len() == 12);
        assert("create_order"@[0] == 'c');
        assert("rotate_proxy"@[0] == 'r');
        reveal_strlit(
            "Register a new AI agent with ProxyBase and receive an API key. This is the first step — you need an API key to use all other tools. The API key should be saved and reused for subsequent requests.",
        );
        reveal_strlit(
            "List all available proxy bandwidth packages with pricing. Each package includes a bandwidth allocation (in bytes), price (in USD), proxy type, and target country.",
        );
        reveal_strlit(
            "List all available payment currencies (cryptocurrencies) that can be used for the pay_currency field when creating an order or topping up. These are the coins enabled on the payment provider's merchant account. You MUST call this before creating an order to know which pay_currency values are valid.",
        );
        reveal_strlit(
            "Create a new proxy order. This generates a cryptocurrency payment invoice. Once payment is confirmed via the blockchain, your SOCKS5 proxy credentials will be provisioned automatically. Poll check_order_status to monitor payment and get credentials.",
        );
        reveal_strlit(
            "Check the current status of an order. Returns payment status, bandwidth usage, and SOCKS5 proxy credentials (host:port:username:password) once the proxy is active. Statuses: payment_pending → confirming → paid → proxy_active → bandwidth_exhausted.",
        );
        reveal_strlit(
            "Add more bandwidth to an existing order. Creates a new payment invoice for the additional bandwidth. The proxy credentials remain the same — only the bandwidth allowance increases. Can also reactivate an exhausted proxy.",
        );
        reveal_strlit(
            "Rotate the proxy to get a fresh IP address. This calls the upstream partner's reset endpoint to invalidate the current session and assign a new IP. Only works on orders with proxy_active status. After rotation, your next SOCKS5 connection will use a new IP.",
        );
    }
    let mut out: Vec<ToolDef> = Vec::new();

    let t0 = tool(
        "register_agent",
        "Register a new AI agent with ProxyBase and receive an API key. This is the first step — you need an API key to use all other tools. The API key should be saved and reused for subsequent requests.",
    );
    proof {
        assert(pairs_of(t0.properties@) =~= catalog()[0].properties);
        assert(keys_of(t0.required@) =~= catalog()[0].required);
        assert(td_view(t0) =~~= catalog()[0]);
        assert(keys_of(t0.required@) =~= required_keys(t0.name@));
    }
    out.push(t0);

    let mut t1 = tool(
        "list_packages",
        "List all available proxy bandwidth packages with pricing. Each package includes a bandwidth allocation (in bytes), price (in USD), proxy type, and target country.",
    );
    prop(&mut t1, "api_key", API_KEY_DESC, true);
    proof {
        assert(pairs_of(t1.properties@) =~= catalog()[1].properties);
        assert(keys_of(t1.required@) =~= catalog()[1].required);
        assert(td_view(t1) =~~= catalog()[1]);
        assert(keys_of(t1.required@) =~= required_keys(t1.name@));
    }
    out.push(t1);

    let mut t2 = tool(
        "list_currencies",
        "List all available payment currencies (cryptocurrencies) that can be used for the pay_currency field when creating an order or topping up. These are the coins enabled on the payment provider's merchant account. You MUST call this before creating an order to know which pay_currency values are valid.",
    );
    prop(&mut t2, "api_key", API_KEY_DESC, true);
    proof {
        assert(pairs_of(t2.properties@) =~= catalog()[2].properties);
        assert(keys_of(t2.required@) =~= catalog()[2].required);
        assert(td_view(t2) =~~= catalog()[2]);
        assert(keys_of(t2.required@) =~= required_keys(t2.name@));
    }
    out.push(t2);

    let mut t3 = tool(
        "create_order",
        "Create a new proxy order. This generates a cryptocurrency payment invoice. Once payment is confirmed via the blockchain, your SOCKS5 proxy credentials will be provisioned automatically. Poll check_order_status to monitor payment and get credentials.",
    );
    prop(&mut t3, "api_key", API_KEY_DESC, true);
    prop(&mut t3, "package_id", "The package ID to purchase (e.g., 'us_residential_1gb')", true);
    prop(
        &mut t3,
        "pay_currency",
        "Cryptocurrency to pay with. Use list_currencies to get valid values. Defaults to 'usdttrc20'.",
        false,
    );
    prop(
        &mut t3,
        "callback_url",
        "Optional webhook URL to receive status notifications (payment confirmed, bandwidth 80%/95%, exhausted)",
        false,
    );
    proof {
        assert(pairs_of(t3.properties@) =~= catalog()[3].properties);
        assert(keys_of(t3.required@) =~= catalog()[3].required);
        assert(td_view(t3) =~~= catalog()[3]);
        assert(keys_of(t3.required@) =~= required_keys(t3.name@));
    }
    out.push(t3);

    let mut t4 = tool(
        "check_order_status",
        "Check the current status of an order. Returns payment status, bandwidth usage, and SOCKS5 proxy credentials (host:port:username:password) once the proxy is active. Statuses: payment_pending → confirming → paid → proxy_active → bandwidth_exhausted.",
    );
    prop(&mut t4, "api_key", API_KEY_DESC, true);
    prop(&mut t4, "order_id", "The order ID returned from create_order", true);
    proof {
        assert(pairs_of(t4.properties@) =~= catalog()[4].properties);
        assert(keys_of(t4.required@) =~= catalog()[4].required);
        assert(td_view(t4) =~~= catalog()[4]);
        assert(keys_of(t4.required@) =~= required_keys(t4.name@));
    }
    out.push(t4);

    let mut t5 = tool(
        "topup_order",
        "Add more bandwidth to an existing order. Creates a new payment invoice for the additional bandwidth. The proxy credentials remain the same — only the bandwidth allowance increases. Can also reactivate an exhausted proxy.",
    );
    prop(&mut t5, "api_key", API_KEY_DESC, true);
    prop(&mut t5, "order_id", "The order ID to top up", true);
    prop(&mut t5, "package_id", "The bandwidth package to add (e.g., 'us_residential_1gb')", true);
    prop(
        &mut t5,
        "pay_currency",
        "Cryptocurrency to pay with. Use list_currencies to get valid values. Defaults to 'usdttrc20'.",
        false,
    );
    proof {
        assert(pairs_of(t5.properties@) =~= catalog()[5].properties);
        assert(keys_of(t5.required@) =~= catalog()[5].required);
        assert(td_view(t5) =~~= catalog()[5]);
        assert(keys_of(t5.required@) =~= required_keys(t5.name@));
    }
    out.push(t5);

    let mut t6 = tool(
        "rotate_proxy",
        "Rotate the proxy to get a fresh IP address. This calls the upstream partner's reset endpoint to invalidate the current session and assign a new IP. Only works on orders with proxy_active status. After rotation, your next SOCKS5 connection will use a new IP.",
    );
    prop(&mut t6, "api_key", API_KEY_DESC, true);
    prop(&mut t6, "order_id", "The order ID whose proxy should be rotated", true);
    proof {
        assert(pairs_of(t6.properties@) =~= catalog()[6].properties);
        assert(keys_of(t6.required@) =~= catalog()[6].required);
        assert(td_view(t6) =~~= catalog()[6]);
        assert(keys_of(t6.required@) =~= required_keys(t6.name@));
    }
    out.push(t6);

    out
}

/// One advertised property: its name, and the `{type: string, description}`
/// schema object it carries.
pub open spec fn prop_jval(p: (Seq<char>, Seq<char>)) -> (Seq<char>, JVal) {
    (
        p.0,
        JVal::Obj(seq![("type"@, JVal::Str("string"@)), ("description"@, JVal::Str(p.1))]),
    )
}

/// The advertised property objects, in order.
pub open spec fn props_jvals(ps: Seq<(Seq<char>, Seq<char>)>) -> Seq<(Seq<char>, JVal)>
    decreases ps.len(),
{
    if ps.len() == 0 {
        Seq::empty()
    } else {
        seq![prop_jval(ps[0])] + props_jvals(ps.skip(1))
    }
}

/// The advertised required keys, as JSON strings, in order.
pub open spec fn req_jvals(rs: Seq<Seq<char>>) -> Seq<JVal>
    decreases rs.len(),
{
    if rs.len() == 0 {
        Seq::empty()
    } else {
        seq![JVal::Str(rs[0])] + req_jvals(rs.skip(1))
    }
}

/// The input schema a tool advertises: `type: object`, its properties, its
/// required keys.
pub open spec fn schema_jval(tv: ToolDefV) -> JVal {
    JVal::Obj(
        seq![
            ("type"@, JVal::Str("object"@)),
            ("properties"@, JVal::Obj(props_jvals(tv.properties))),
            ("required"@, JVal::Arr(req_jvals(tv.required))),
        ],
    )
}

/// The JSON entry a tool is advertised as.
pub open spec fn tool_jval(tv: ToolDefV) -> JVal {
    JVal::Obj(
        seq![
            ("name"@, JVal::Str(tv.name)),
            ("description"@, JVal::Str(tv.description)),
            ("inputSchema"@, schema_jval(tv)),
        ],
    )
}

/// The advertised catalog entries, in order.
pub open spec fn tools_jvals(tvs: Seq<ToolDefV>) -> Seq<JVal>
    decreases tvs.len(),
{
    if tvs.len() == 0 {
        Seq::empty()
    } else {
        seq![tool_jval(tvs[0])] + tools_jvals(tvs.skip(1))
    }
}

/// Each entry in `tools_jvals` advertises the matching tool.
pub proof fn lemma_tools_jvals(tvs: Seq<ToolDefV>)
    ensures
        tools_jvals(tvs).len() == tvs.len(),
        forall|i: int| 0 <= i < tvs.len() ==> #[trigger] tools_jvals(tvs)[i] == tool_jval(tvs[i]),
    decreases tvs.len(),
{
    if tvs.len() > 0 {
        lemma_tools_jvals(tvs.skip(1));
        assert forall|i: int| 0 <= i < tvs.len() implies #[trigger] tools_jvals(tvs)[i]
            == tool_jval(tvs[i]) by {
            if i > 0 {
                assert(tvs.skip(1)[i - 1] == tvs[i]);
            }
        }
    }
}

/// `props_jvals` of a longer prefix extends the shorter one.
proof fn lemma_props_jvals_snoc(ps: Seq<(Seq<char>, Seq<char>)>, p: (Seq<char>, Seq<char>))
    ensures
        props_jvals(ps.push(p)) == props_jvals(ps).push(prop_jval(p)),
    decreases ps.len(),
{
    if ps.len() == 0 {
        assert(ps.push(p)[0] == p);
        assert(ps.push(p).skip(1) =~= Seq::<(Seq<char>, Seq<char>)>::empty());
        assert(props_jvals(Seq::<(Seq<char>, Seq<char>)>::empty()) =~= Seq::<
            (Seq<char>, JVal),
        >::empty());
        assert(props_jvals(ps.push(p)) =~= props_jvals(ps).push(prop_jval(p)));
    } else {
        assert(ps.push(p)[0] == ps[0]);
        assert(ps.push(p).skip(1) =~= ps.skip(1).push(p));
        lemma_props_jvals_snoc(ps.skip(1), p);
        assert(props_jvals(ps.push(p)) =~= props_jvals(ps).push(prop_jval(p)));
    }
}

/// `req_jvals` of a longer prefix extends the shorter one.
proof fn lemma_req_jvals_snoc(rs: Seq<Seq<char>>, x: Seq<char>)
    ensures
        req_jvals(rs.push(x)) == req_jvals(rs).push(JVal::Str(x)),
    decreases rs.len(),
{
    if rs.len() == 0 {
        assert(rs.push(x)[0] == x);
        assert(rs.push(x).skip(1) =~= Seq::<Seq<char>>::empty());
        assert(req_jvals(Seq::<Seq<char>>::empty()) =~= Seq::<JVal>::empty());
        assert(req_jvals(rs.push(x)) =~= req_jvals(rs).push(JVal::Str(x)));
    } else {
        assert(rs.push(x)[0] == rs[0]);
        assert(rs.push(x).skip(1) =~= rs.skip(1).push(x));
        lemma_req_jvals_snoc(rs.skip(1), x);
        assert(req_jvals(rs.push(x)) =~= req_jvals(rs).push(JVal::Str(x)));
    }
}

/// The JSON entry a tool is advertised as: exactly [`tool_jval`] of its
/// model.
#[verifier::rlimit(60)]
pub fn tool_to_json(t: &ToolDef) -> (r: Json)
    ensures
        r@ == tool_jval(td_view(*t)),
        r@ is Obj,
        spec_get(r@, "name"@) == Some(JVal::Str(t.name@)),
        spec_get(r@, "description"@) == Some(JVal::Str(t.description@)),
        spec_get(r@, "inputSchema"@) matches Some(s) && s is Obj,
{
    proof {
        reveal_strlit("name");
        reveal_strlit("description");
        reveal_strlit("inputSchema");
        assert("name"@.len() == 4);
        assert("description"@.len() == 11);
        assert("inputSchema"@.len() == 11);
        assert("description"@[0] == 'd');
        assert("inputSchema"@[0] == 'i');
    }
    let ghost pv = pairs_of(t.properties@);
    let ghost rv = keys_of(t.required@);
    proof {
        lemma_pairs_of(t.properties@);
        lemma_keys_of(t.required@);
        assert(pv.take(0) =~= Seq::<(Seq<char>, Seq<char>)>::empty());
        assert(props_jvals(Seq::<(Seq<char>, Seq<char>)>::empty()) =~= Seq::<
            (Seq<char>, JVal),
        >::empty());
        assert(rv.take(0) =~= Seq::<Seq<char>>::empty());
        assert(req_jvals(Seq::<Seq<char>>::empty()) =~= Seq::<JVal>::empty());
    }
    // the properties object
    let mut props: Vec<(Vec<char>, Json)> = Vec::new();
    let n = t.properties.len();
    for i in 0..n
        invariant
            n == t.properties@.len(),
            pv == pairs_of(t.properties@),
            pv.len() == n,
            forall|k: int| 0 <= k < n ==> #[trigger] pv[k] == (t.properties@[k].0@,
            t.properties@[k].1@),
            jmembers_of(props@) == props_jvals(pv.take(i as int)),
    {
        let mut pm: Vec<(Vec<char>, Json)> = Vec::new();
        pm.push((chars_of("type"), Json::Str(chars_of("string"))));
        pm.push((chars_of("description"), Json::Str(crate::json::copy_chars(
            t.properties[i].1.as_slice(),
        ))));
        let pobj = Json::Obj(pm);
        let key = crate::json::copy_chars(t.properties[i].0.as_slice());
        proof {
            lemma_jmembers_of(pobj->Obj_0@);
            assert(jmembers_of(pobj->Obj_0@) =~= seq![
                ("type"@, JVal::Str("string"@)),
                ("description"@, JVal::Str(pv[i as int].1)),
            ]);
            assert(pobj@ == prop_jval(pv[i as int]).1);
            lemma_jmembers_push(props@, key, pobj);
            lemma_props_jvals_snoc(pv.take(i as int), pv[i as int]);
            assert(pv.take(i as int).push(pv[i as int]) =~= pv.take(i + 1));
        }
        props.push((key, pobj));
    }
    // the required array
    let mut reqs: Vec<Json> = Vec::new();
    let m = t.required.len();
    for i in 0..m
        invariant
            m == t.required@.len(),
            rv == keys_of(t.required@),
            rv.len() == m,
            forall|k: int| 0 <= k < m ==> #[trigger] rv[k] == t.required@[k]@,
            jvals_of(reqs@) == req_jvals(rv.take(i as int)),
    {
        let entry = Json::Str(crate::json::copy_chars(t.required[i].as_slice()));
        proof {
            lemma_jvals_push(reqs@, entry);
            lemma_req_jvals_snoc(rv.take(i as int), rv[i as int]);
            assert(rv.take(i as int).push(rv[i as int]) =~= rv.take(i + 1));
        }
        reqs.push(entry);
    }
    proof {
        assert(pv.take(n as int) =~= pv);
        assert(rv.take(m as int) =~= rv);
    }
    let mut schema: Vec<(Vec<char>, Json)> = Vec::new();
    schema.push((chars_of("type"), Json::Str(chars_of("object"))));
    schema.push((chars_of("properties"), Json::Obj(props)));
    schema.push((chars_of("required"), Json::Arr(reqs)));
    let schema_obj = Json::Obj(schema);
    proof {
        lemma_jmembers_of(schema_obj->Obj_0@);
        assert(jmembers_of(schema_obj->Obj_0@) =~= schema_jval(td_view(*t))->Obj_0);
        assert(schema_obj@ == schema_jval(td_view(*t)));
    }
    let mut members: Vec<(Vec<char>, Json)> = Vec::new();
    members.push((chars_of("name"), Json::Str(crate::json::copy_chars(t.name.as_slice()))));
    members.push((
        chars_of("description"),
        Json::Str(crate::json::copy_chars(t.description.as_slice())),
    ));
    members.push((chars_of("inputSchema"), schema_obj));
    let r = Json::Obj(members);
    proof {
        lemma_jmembers_of(members@);
        let ms = jmembers_of(members@);
        assert(ms =~= tool_jval(td_view(*t))->Obj_0);
        assert(r@ == tool_jval(td_view(*t)));
        assert(spec_lookup(ms, "name"@) == Some(ms[0].1));
        assert(spec_lookup(ms.skip(1), "description"@) == Some(ms.skip(1)[0].1));
        assert(ms.skip(1)[0] == ms[1]);
        assert(ms.skip(1).skip(1) =~= ms.skip(2));
        assert(ms.skip(2)[0] == ms[2]);
        assert(spec_lookup(ms.skip(1), "inputSchema"@) == spec_lookup(ms.skip(2), "inputSchema"@));
        assert(spec_lookup(ms.skip(2), "inputSchema"@) == Some(ms.skip(2)[0].1));
    }
    r
}

/// The advertised catalog as the JSON array `tools/list` returns: exactly
/// [`tools_jvals`] of the entries' models.
pub fn tools_to_json(ts: &Vec<ToolDef>) -> (r: Json)
    ensures
        r@ matches JVal::Arr(elems) && elems.len() == ts@.len() && (forall|i: int|
            0 <= i < ts@.len() ==> #[trigger] elems[i] == tool_jval(td_view(ts@[i]))) && (forall|
            i: int,
        |
            0 <= i < ts@.len() ==> spec_get(#[trigger] elems[i], "name"@) == Some(
                JVal::Str(ts@[i].name@),
            ) && spec_get(elems[i], "description"@) == Some(JVal::Str(ts@[i].description@))
                && (spec_get(elems[i], "inputSchema"@) matches Some(s) && s is Obj)),
{
    let n = ts.len();
    let mut out: Vec<Json> = Vec::new();
    for i in 0..n
        invariant
            n == ts@.len(),
            jvals_of(out@).len() == i,
            forall|k: int|
                0 <= k < i ==> #[trigger] jvals_of(out@)[k] == tool_jval(td_view(ts@[k])),
            forall|k: int|
                0 <= k < i ==> spec_get(#[trigger] jvals_of(out@)[k], "name"@) == Some(
                    JVal::Str(ts@[k].name@),
                ) && spec_get(jvals_of(out@)[k], "description"@) == Some(
                    JVal::Str(ts@[k].description@),
                ) && (spec_get(jvals_of(out@)[k], "inputSchema"@) matches Some(s) && s is Obj),
    {
        let e = tool_to_json(&ts[i]);
        proof {
            lemma_jvals_push(out@, e);
        }
        out.push(e);
    }
    Json::Arr(out)
}

} // verus!
