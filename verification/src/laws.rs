//! Round-trip law: serializing a well-formed JSON value and parsing the
//! text back yields exactly that value.
//!
//! Well-formedness only constrains number lexemes (they must be exactly one
//! number of the grammar); every string, array and object round-trips.

use vstd::prelude::*;
use crate::json::JVal;
use crate::parse::{parse_text, parse_value, parse_elems, parse_members, parse_string_body,
    parse_number, parse_lit, skip_ws, is_ws, is_digit, td, num_len, frac_len, exp_len, hex_val,
    hex4, unesc};
use crate::ser::{ser, ser_items, ser_members, ser_str, esc_str, esc_char, hex_digit};
use crate::dispatch::success_envelope;

verus! {

/// A value whose number lexemes are each exactly one number of the grammar.
pub open spec fn wf(v: JVal) -> bool
    decreases v, 0nat, 0nat,
{
    match v {
        JVal::Null => true,
        JVal::Bool(_) => true,
        JVal::Num(lex) => num_len(lex) == Some(lex.len() as int),
        JVal::Str(_) => true,
        JVal::Arr(items) => wf_items(items),
        JVal::Obj(members) => wf_members(members),
    }
}

/// Well-formedness of every element.
pub open spec fn wf_items(items: Seq<JVal>) -> bool
    decreases items, items.len(), 1nat,
{
    if items.len() == 0 {
        true
    } else {
        wf(items[0]) && wf_items(items.skip(1))
    }
}

/// Well-formedness of every member value.
pub open spec fn wf_members(members: Seq<(Seq<char>, JVal)>) -> bool
    decreases members, members.len(), 1nat,
{
    if members.len() == 0 {
        true
    } else {
        wf(members[0].1) && wf_members(members.skip(1))
    }
}

/// What may stand right after a serialized value inside a larger text.
pub open spec fn val_end(tail: Seq<char>) -> bool {
    tail.len() == 0 || tail[0] == ',' || tail[0] == ']' || tail[0] == '}'
}

/// The characters a serialized value can start with.
pub open spec fn val_first(c: char) -> bool {
    c == 'n' || c == 't' || c == 'f' || c == '"' || c == '[' || c == '{' || c == '-' || is_digit(c)
}

/// Skipping whitespace does nothing when the head is not whitespace.
proof fn lemma_skip_ws_id(s: Seq<char>)
    requires
        s.len() == 0 || !is_ws(s[0]),
    ensures
        skip_ws(s) == s,
{
}

/// A serialized well-formed value is non-empty and starts with a value
/// character.
proof fn lemma_ser_first(v: JVal)
    requires
        wf(v),
    ensures
        ser(v).len() > 0,
        val_first(ser(v)[0]),
{
    match v {
        JVal::Num(lex) => {
            let p1: int = if lex.len() > 0 && lex[0] == '-' {
                1
            } else {
                0
            };
            let n1 = td(lex.skip(p1));
            assert(n1 != 0) by {
                if n1 == 0 {
                    assert(num_len(lex) is None);
                }
            }
            lemma_td_len(lex.skip(p1));
            assert(lex.len() > 0);
            if !(lex[0] == '-') {
                assert(lex.skip(0) =~= lex);
                assert(td(lex) > 0);
                assert(is_digit(lex[0]));
            }
        },
        JVal::Str(s) => {
            assert(ser(v)[0] == '"');
        },
        _ => {},
    }
}

/// How a digit count distributes over concatenation.
proof fn lemma_td_concat(a: Seq<char>, b: Seq<char>)
    ensures
        td(a + b) == if td(a) < a.len() {
            td(a)
        } else {
            a.len() + td(b)
        },
    decreases a.len(),
{
    if a.len() == 0 {
        assert(a + b =~= b);
    } else {
        assert((a + b)[0] == a[0]);
        if is_digit(a[0]) {
            assert((a + b).skip(1) =~= a.skip(1) + b);
            lemma_td_concat(a.skip(1), b);
        }
    }
}

/// A tail that may follow a value starts with no digit.
proof fn lemma_td_val_end(tail: Seq<char>)
    requires
        val_end(tail),
    ensures
        td(tail) == 0,
{
}

/// A well-formed number lexeme followed by a value tail parses to exactly
/// that lexeme.
proof fn lemma_parse_number(lex: Seq<char>, tail: Seq<char>)
    requires
        num_len(lex) == Some(lex.len() as int),
        val_end(tail),
    ensures
        parse_number(lex + tail) == Some((JVal::Num(lex), tail)),
{
    let s = lex + tail;
    let ll = lex.len() as int;
    lemma_td_val_end(tail);
    let p1: int = if lex.len() > 0 && lex[0] == '-' {
        1
    } else {
        0
    };
    let n1 = td(lex.skip(p1));
    assert(n1 != 0) by {
        if n1 == 0 {
            assert(num_len(lex) is None);
        }
    }
    lemma_td_len(lex.skip(p1));
    assert(lex.len() > 0);
    assert(s[0] == lex[0]);
    assert(s.len() > 0);
    let sp1: int = if s.len() > 0 && s[0] == '-' {
        1
    } else {
        0
    };
    assert(sp1 == p1);
    assert(s.skip(p1) =~= lex.skip(p1) + tail);
    lemma_td_concat(lex.skip(p1), tail);
    assert(td(s.skip(p1)) == n1);
    if n1 > 1 {
        assert(s[p1] == lex[p1]);
    }
    let p2 = p1 + n1;
    assert(p2 <= ll) by {
        assert(td(lex.skip(p1)) <= lex.skip(p1).len()) by {
            lemma_td_len(lex.skip(p1));
        }
    }
    // the fraction part
    if p2 < ll {
        assert(s[p2] == lex[p2]);
    } else {
        if tail.len() > 0 {
            assert(s[p2] == tail[0]);
        }
    }
    let fl = frac_len(lex, p2)->0;
    assert(frac_len(lex, p2) is Some);
    if p2 < ll && lex[p2] == '.' {
        assert(s.skip(p2 + 1) =~= lex.skip(p2 + 1) + tail);
        lemma_td_concat(lex.skip(p2 + 1), tail);
        lemma_td_len(lex.skip(p2 + 1));
        assert(td(s.skip(p2 + 1)) == td(lex.skip(p2 + 1)));
        assert(frac_len(s, p2) == frac_len(lex, p2));
    } else {
        assert(frac_len(s, p2) == Some(0int));
        assert(frac_len(lex, p2) == Some(0int));
    }
    let p3 = p2 + fl;
    assert(p3 <= ll) by {
        assert(exp_len(lex, p3) is Some);
        if p2 < ll && lex[p2] == '.' {
            lemma_td_len(lex.skip(p2 + 1));
        }
    }
    // the exponent part
    if p3 < ll {
        assert(s[p3] == lex[p3]);
    } else {
        if tail.len() > 0 {
            assert(s[p3] == tail[0]);
        }
    }
    if p3 < ll && (lex[p3] == 'e' || lex[p3] == 'E') {
        let ps: int = if p3 + 1 < ll && (lex[p3 + 1] == '+' || lex[p3 + 1] == '-') {
            1
        } else {
            0
        };
        if p3 + 1 < ll {
            assert(s[p3 + 1] == lex[p3 + 1]);
        } else {
            if tail.len() > 0 {
                assert(s[p3 + 1] == tail[0]);
            }
            assert(exp_len(lex, p3) is Some);
            assert(td(lex.skip(p3 + 1 + ps)) > 0);
            assert(lex.skip(p3 + 1 + ps).len() == 0);
            lemma_td_len(lex.skip(p3 + 1 + ps));
            assert(false);
        }
        let sps: int = if p3 + 1 < s.len() && (s[p3 + 1] == '+' || s[p3 + 1] == '-') {
            1
        } else {
            0
        };
        assert(sps == ps);
        assert(s.skip(p3 + 1 + ps) =~= lex.skip(p3 + 1 + ps) + tail);
        lemma_td_concat(lex.skip(p3 + 1 + ps), tail);
        assert(td(s.skip(p3 + 1 + ps)) == td(lex.skip(p3 + 1 + ps)));
        assert(exp_len(s, p3) == exp_len(lex, p3));
    } else {
        assert(exp_len(s, p3) == Some(0int));
        assert(exp_len(lex, p3) == Some(0int));
    }
    assert(num_len(s) == Some(ll));
    assert(s.take(ll) =~= lex);
    assert(s.skip(ll) =~= tail);
}

/// A digit count never exceeds the length.
proof fn lemma_td_len(s: Seq<char>)
    ensures
        0 <= td(s) <= s.len(),
    decreases s.len(),
{
    if s.len() > 0 && is_digit(s[0]) {
        lemma_td_len(s.skip(1));
    }
}

/// A hexadecimal digit reads back as its value.
proof fn lemma_hex_digit(n: u32)
    requires
        n < 16,
    ensures
        hex_val(hex_digit(n)) == Some(n),
{
}

/// An escaped string body followed by its closing quote parses back to the
/// original characters.
proof fn lemma_parse_string(content: Seq<char>, tail: Seq<char>)
    ensures
        parse_string_body(esc_str(content) + seq!['"'] + tail) == Some((content, tail)),
    decreases content.len(),
{
    let s = esc_str(content) + seq!['"'] + tail;
    if content.len() == 0 {
        assert(s =~= seq!['"'] + tail);
        assert(s[0] == '"');
        assert(s.skip(1) =~= tail);
        assert(parse_string_body(s) == Some((Seq::<char>::empty(), tail)));
        assert(Seq::<char>::empty() =~= content);
    } else {
        let c = content[0];
        let e = esc_char(c);
        let rest = esc_str(content.skip(1)) + seq!['"'] + tail;
        assert(s =~= e + rest);
        lemma_parse_string(content.skip(1), tail);
        if c == '"' || c == '\\' {
            assert(s[0] == '\\');
            assert(s[1] == e[1]);
            assert(s.len() >= 2);
            assert(unesc(s[1]) == Some(c));
            assert(s.skip(2) =~= rest);
            assert(seq![c] + content.skip(1) =~= content);
        } else if c == '\u{8}' || c == '\t' || c == '\n' || c == '\u{c}' || c == '\r' {
            assert(s[0] == '\\');
            assert(s[1] == e[1]);
            assert(unesc(s[1]) == Some(c));
            assert(s.skip(2) =~= rest);
            assert(seq![c] + content.skip(1) =~= content);
        } else if (c as u32) < 0x20 {
            assert(s[0] == '\\');
            assert(s[1] == 'u');
            assert(s.len() >= 6);
            let q = s.subrange(2, 6);
            assert(q[0] == '0');
            assert(q[1] == '0');
            assert(q[2] == hex_digit((c as u32) / 16));
            assert(q[3] == hex_digit((c as u32) % 16));
            lemma_hex_digit((c as u32) / 16);
            lemma_hex_digit((c as u32) % 16);
            assert(hex_val('0') == Some(0u32));
            let code = hex4(q)->0;
            assert(hex4(q) == Some(code));
            assert(code == c as u32);
            assert(code < 0xD800);
            vstd::utf8::char_u32_cast(c, code);
            assert(code as char == c);
            assert(s.skip(6) =~= rest);
            assert(seq![c] + content.skip(1) =~= content);
        } else {
            assert(e =~= seq![c]);
            assert(s[0] == c);
            assert(s.skip(1) =~= rest);
            assert(seq![c] + content.skip(1) =~= content);
        }
    }
}

/// Round trip of one value inside a larger text: parsing its serialization
/// consumes exactly it and leaves the tail.
#[verifier::rlimit(100)]
proof fn lemma_rt_val(v: JVal, tail: Seq<char>, fuel: nat)
    requires
        wf(v),
        val_end(tail),
        fuel >= ser(v).len() + 2,
    ensures
        parse_value(ser(v) + tail, fuel) == Some((v, tail)),
    decreases v, 0nat, 0nat,
{
    let s = ser(v) + tail;
    lemma_ser_first(v);
    assert(s[0] == ser(v)[0]);
    lemma_skip_ws_id(s);
    let t = skip_ws(s);
    assert(t == s);
    match v {
        JVal::Null => {
            assert(s.take(4) =~= seq!['n', 'u', 'l', 'l']);
            assert(s.skip(4) =~= tail);
            assert(parse_lit(s, seq!['n', 'u', 'l', 'l'], JVal::Null) == Some((JVal::Null, tail)));
        },
        JVal::Bool(b) => {
            if b {
                assert(s.take(4) =~= seq!['t', 'r', 'u', 'e']);
                assert(s.skip(4) =~= tail);
            } else {
                assert(s.take(5) =~= seq!['f', 'a', 'l', 's', 'e']);
                assert(s.skip(5) =~= tail);
            }
        },
        JVal::Num(lex) => {
            lemma_parse_number(lex, tail);
            assert(s[0] == '-' || is_digit(s[0]));
            assert(s[0] != 'n' && s[0] != 't' && s[0] != 'f' && s[0] != '"' && s[0] != '[' && s[0]
                != '{');
        },
        JVal::Str(content) => {
            assert(s[0] == '"');
            assert(s.skip(1) =~= esc_str(content) + seq!['"'] + tail);
            lemma_parse_string(content, tail);
        },
        JVal::Arr(items) => {
            assert(s[0] == '[');
            lemma_rt_arr(items, tail, fuel);
        },
        JVal::Obj(members) => {
            assert(s[0] == '{');
            lemma_rt_obj(members, tail, fuel);
        },
    }
}

/// Round trip of one array inside a larger text.
#[verifier::rlimit(100)]
proof fn lemma_rt_arr(items: Seq<JVal>, tail: Seq<char>, fuel: nat)
    requires
        wf_items(items),
        val_end(tail),
        fuel >= ser(JVal::Arr(items)).len() + 2,
    ensures
        parse_value(ser(JVal::Arr(items)) + tail, fuel) == Some((JVal::Arr(items), tail)),
    decreases items, items.len(), 3nat,
{
    let v = JVal::Arr(items);
    let s = ser(v) + tail;
    assert(s[0] == '[');
    lemma_skip_ws_id(s);
    if items.len() == 0 {
        assert(s =~= seq!['[', ']'] + tail);
        assert(s.skip(1) =~= seq![']'] + tail);
        lemma_skip_ws_id(s.skip(1));
        let u = skip_ws(s.skip(1));
        assert(u[0] == ']');
        assert(u.skip(1) =~= tail);
        assert(v->Arr_0 =~= Seq::<JVal>::empty());
        assert(JVal::Arr(Seq::<JVal>::empty()) == v);
    } else {
        assert(s.skip(1) =~= ser_items(items) + seq![']'] + tail);
        lemma_ser_items_first(items);
        let u0 = ser_items(items) + seq![']'] + tail;
        assert(u0[0] == ser_items(items)[0]);
        lemma_skip_ws_id(u0);
        assert(skip_ws(s.skip(1)) == u0);
        assert(u0[0] != ']');
        lemma_rt_elems(items, Seq::empty(), tail, (fuel - 1) as nat);
        assert(Seq::<JVal>::empty() + items =~= items);
        assert(parse_elems(s.skip(1), Seq::empty(), (fuel - 1) as nat) == Some(
            (JVal::Arr(items), tail),
        ));
    }
}

/// Round trip of one object inside a larger text.
#[verifier::rlimit(100)]
proof fn lemma_rt_obj(members: Seq<(Seq<char>, JVal)>, tail: Seq<char>, fuel: nat)
    requires
        wf_members(members),
        val_end(tail),
        fuel >= ser(JVal::Obj(members)).len() + 2,
    ensures
        parse_value(ser(JVal::Obj(members)) + tail, fuel) == Some((JVal::Obj(members), tail)),
    decreases members, members.len(), 3nat,
{
    let v = JVal::Obj(members);
    let s = ser(v) + tail;
    assert(s[0] == '{');
    lemma_skip_ws_id(s);
    if members.len() == 0 {
        assert(s =~= seq!['{', '}'] + tail);
        assert(s.skip(1) =~= seq!['}'] + tail);
        lemma_skip_ws_id(s.skip(1));
        let u = skip_ws(s.skip(1));
        assert(u[0] == '}');
        assert(u.skip(1) =~= tail);
        assert(v->Obj_0 =~= Seq::<(Seq<char>, JVal)>::empty());
        assert(JVal::Obj(Seq::<(Seq<char>, JVal)>::empty()) == v);
    } else {
        assert(s.skip(1) =~= ser_members(members) + seq!['}'] + tail);
        let u0 = ser_members(members) + seq!['}'] + tail;
        assert(ser_members(members)[0] == '"');
        assert(u0[0] == '"');
        lemma_skip_ws_id(u0);
        assert(skip_ws(s.skip(1)) == u0);
        assert(u0[0] != '}');
        lemma_rt_members(members, Seq::empty(), tail, (fuel - 1) as nat);
        assert(Seq::<(Seq<char>, JVal)>::empty() + members =~= members);
        assert(parse_members(s.skip(1), Seq::empty(), (fuel - 1) as nat) == Some(
            (JVal::Obj(members), tail),
        ));
    }
}

/// Serialized elements start with the first element's first character.
proof fn lemma_ser_items_first(items: Seq<JVal>)
    requires
        items.len() > 0,
        wf_items(items),
    ensures
        ser_items(items).len() > 0,
        ser_items(items)[0] == ser(items[0])[0],
        val_first(ser_items(items)[0]),
{
    lemma_ser_first(items[0]);
}

/// Round trip of the elements of a non-empty array.
proof fn lemma_rt_elems(items: Seq<JVal>, acc: Seq<JVal>, tail: Seq<char>, fuel: nat)
    requires
        items.len() > 0,
        wf_items(items),
        val_end(tail),
        fuel >= ser_items(items).len() + 2,
    ensures
        parse_elems(ser_items(items) + seq![']'] + tail, acc, fuel) == Some(
            (JVal::Arr(acc + items), tail),
        ),
    decreases items, items.len(), 1nat,
{
    let s = ser_items(items) + seq![']'] + tail;
    if items.len() == 1 {
        let tail1 = seq![']'] + tail;
        assert(s =~= ser(items[0]) + tail1);
        lemma_rt_val(items[0], tail1, fuel);
        assert(parse_value(s, fuel) == Some((items[0], tail1)));
        lemma_skip_ws_id(tail1);
        assert(tail1[0] == ']');
        assert(tail1.skip(1) =~= tail);
        assert(acc.push(items[0]) =~= acc + items);
    } else {
        let rest = items.skip(1);
        let tail1 = seq![','] + ser_items(rest) + seq![']'] + tail;
        assert(s =~= ser(items[0]) + tail1);
        lemma_rt_val(items[0], tail1, fuel);
        assert(parse_value(s, fuel) == Some((items[0], tail1)));
        lemma_skip_ws_id(tail1);
        assert(tail1[0] == ',');
        assert(tail1.skip(1) =~= ser_items(rest) + seq![']'] + tail);
        lemma_rt_elems(rest, acc.push(items[0]), tail, (fuel - 1) as nat);
        assert(acc.push(items[0]) + rest =~= acc + items);
    }
}

/// Round trip of the members of a non-empty object.
#[verifier::rlimit(100)]
proof fn lemma_rt_members(
    members: Seq<(Seq<char>, JVal)>,
    acc: Seq<(Seq<char>, JVal)>,
    tail: Seq<char>,
    fuel: nat,
)
    requires
        members.len() > 0,
        wf_members(members),
        val_end(tail),
        fuel >= ser_members(members).len() + 2,
    ensures
        parse_members(ser_members(members) + seq!['}'] + tail, acc, fuel) == Some(
            (JVal::Obj(acc + members), tail),
        ),
    decreases members, members.len(), 1nat,
{
    let key = members[0].0;
    let val = members[0].1;
    let s = ser_members(members) + seq!['}'] + tail;
    lemma_skip_ws_id(s);
    assert(s[0] == '"');
    if members.len() == 1 {
        let vtail = seq!['}'] + tail;
        assert(s.skip(1) =~= esc_str(key) + seq!['"'] + (seq![':'] + ser(val) + vtail));
        lemma_parse_string(key, seq![':'] + ser(val) + vtail);
        let r = seq![':'] + ser(val) + vtail;
        lemma_skip_ws_id(r);
        assert(r[0] == ':');
        assert(r.skip(1) =~= ser(val) + vtail);
        lemma_rt_val(val, vtail, fuel);
        assert(parse_value(r.skip(1), fuel) == Some((val, vtail)));
        lemma_skip_ws_id(vtail);
        assert(vtail[0] == '}');
        assert(vtail.skip(1) =~= tail);
        assert(acc.push((key, val)) =~= acc + members);
    } else {
        let rest = members.skip(1);
        let vtail = seq![','] + ser_members(rest) + seq!['}'] + tail;
        assert(s.skip(1) =~= esc_str(key) + seq!['"'] + (seq![':'] + ser(val) + vtail));
        lemma_parse_string(key, seq![':'] + ser(val) + vtail);
        let r = seq![':'] + ser(val) + vtail;
        lemma_skip_ws_id(r);
        assert(r[0] == ':');
        assert(r.skip(1) =~= ser(val) + vtail);
        lemma_rt_val(val, vtail, fuel);
        assert(parse_value(r.skip(1), fuel) == Some((val, vtail)));
        lemma_skip_ws_id(vtail);
        assert(vtail[0] == ',');
        assert(vtail.skip(1) =~= ser_members(rest) + seq!['}'] + tail);
        lemma_rt_members(rest, acc.push((key, val)), tail, (fuel - 1) as nat);
        assert(acc.push((key, val)) + rest =~= acc + members);
    }
}

/// Round trip: the compact text of a well-formed value parses back to
/// exactly that value.
pub proof fn lemma_round_trip(v: JVal)
    requires
        wf(v),
    ensures
        parse_text(ser(v)) == Some(v),
{
    let s = ser(v);
    lemma_rt_val(v, Seq::empty(), (s.len() + 2) as nat);
    assert(s + Seq::<char>::empty() =~= s);
    assert(parse_value(s, (s.len() + 2) as nat) == Some((v, Seq::<char>::empty())));
    assert(skip_ws(Seq::<char>::empty()).len() == 0);
}

/// Round trip of a success envelope: encoding an envelope built from a
/// well-formed identifier and result and decoding the line gives back the
/// very same object, result included.
pub proof fn lemma_envelope_round_trip(id: JVal, result: JVal)
    requires
        wf(id),
        wf(result),
    ensures
        parse_text(ser(success_envelope(id, result))) == Some(success_envelope(id, result)),
{
    let env = success_envelope(id, result);
    assert(wf(env)) by {
        let ms = env->Obj_0;
        assert(ms[0].1 == JVal::Str("2.0"@));
        assert(wf(ms[0].1));
        assert(ms.skip(1) =~= seq![("id"@, id), ("result"@, result)]);
        assert(ms.skip(1)[0].1 == id);
        assert(ms.skip(1).skip(1) =~= seq![("result"@, result)]);
        assert(ms.skip(1).skip(1)[0].1 == result);
        assert(ms.skip(1).skip(1).skip(1) =~= Seq::<(Seq<char>, JVal)>::empty());
        assert(wf_members(ms.skip(1).skip(1).skip(1)));
        assert(wf_members(ms.skip(1).skip(1)));
        assert(wf_members(ms.skip(1)));
        assert(wf_members(ms));
    }
    lemma_round_trip(env);
}

} // verus!
