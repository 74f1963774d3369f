//! JSON parsing: the grammar as spec functions, and an executable
//! recursive-descent parser proved to decide exactly that grammar.
//!
//! The spec parser threads a fuel counter so that nesting recursion is
//! well-founded; fuel is only ever spent after consuming input, and parsing
//! a whole text budgets the input length plus two.

use vstd::prelude::*;
use crate::json::{JVal, Json, jval_of, jvals_of, jmembers_of, lemma_jvals_of, lemma_jmembers_of,
    lemma_jvals_push, lemma_jmembers_push};

verus! {

/// Relies on core's `char::from_u32`: returns `Some` exactly on unicode
/// scalar values, the `char` with that code.
pub assume_specification[ char::from_u32 ](n: u32) -> (r: Option<char>)
    ensures
        r is Some <==> (n < 0xD800 || (0xE000 <= n && n <= 0x10FFFF)),
        r matches Some(c) ==> c as u32 == n,
;

/// JSON whitespace.
pub open spec fn is_ws(c: char) -> bool {
    c == ' ' || c == '\t' || c == '\n' || c == '\r'
}

/// A decimal digit.
pub open spec fn is_digit(c: char) -> bool {
    '0' <= c && c <= '9'
}

/// The input with its leading whitespace removed.
pub open spec fn skip_ws(s: Seq<char>) -> Seq<char>
    decreases s.len(),
{
    if s.len() > 0 && is_ws(s[0]) {
        skip_ws(s.skip(1))
    } else {
        s
    }
}

/// The value of a hexadecimal digit.
pub open spec fn hex_val(c: char) -> Option<u32> {
    if '0' <= c && c <= '9' {
        Some((c as u32 - 48) as u32)
    } else if 'a' <= c && c <= 'f' {
        Some((c as u32 - 87) as u32)
    } else if 'A' <= c && c <= 'F' {
        Some((c as u32 - 55) as u32)
    } else {
        None
    }
}

/// The value of four hexadecimal digits.
pub open spec fn hex4(q: Seq<char>) -> Option<u32>
    recommends
        q.len() == 4,
{
    match (hex_val(q[0]), hex_val(q[1]), hex_val(q[2]), hex_val(q[3])) {
        (Some(a), Some(b), Some(c), Some(d)) => Some(
            (a * 4096 + b * 256 + c * 16 + d) as u32,
        ),
        _ => None,
    }
}

/// The character a single-letter escape stands for.
pub open spec fn unesc(e: char) -> Option<char> {
    if e == '"' {
        Some('"')
    } else if e == '\\' {
        Some('\\')
    } else if e == '/' {
        Some('/')
    } else if e == 'b' {
        Some('\u{8}')
    } else if e == 'f' {
        Some('\u{c}')
    } else if e == 'n' {
        Some('\n')
    } else if e == 'r' {
        Some('\r')
    } else if e == 't' {
        Some('\t')
    } else {
        None
    }
}

/// Parses a string body after the opening quote: the decoded characters and
/// the remainder after the closing quote.
pub open spec fn parse_string_body(s: Seq<char>) -> Option<(Seq<char>, Seq<char>)>
    decreases s.len(),
{
    if s.len() == 0 {
        None
    } else if s[0] == '"' {
        Some((Seq::empty(), s.skip(1)))
    } else if s[0] == '\\' {
        if s.len() < 2 {
            None
        } else if s[1] == 'u' {
            if s.len() < 6 {
                None
            } else {
                match hex4(s.subrange(2, 6)) {
                    None => None,
                    Some(code) => if 0xD800 <= code && code < 0xDC00 {
                        if s.len() < 12 || s[6] != '\\' || s[7] != 'u' {
                            None
                        } else {
                            match hex4(s.subrange(8, 12)) {
                                None => None,
                                Some(lo) => if 0xDC00 <= lo && lo < 0xE000 {
                                    match parse_string_body(s.skip(12)) {
                                        Some((t, r)) => Some(
                                            (
                                                seq![
                                                    ((0x10000 + (code - 0xD800) * 0x400 + (lo
                                                        - 0xDC00)) as u32) as char
                                                ] + t,
                                                r,
                                            ),
                                        ),
                                        None => None,
                                    }
                                } else {
                                    None
                                },
                            }
                        }
                    } else if 0xDC00 <= code && code < 0xE000 {
                        None
                    } else {
                        match parse_string_body(s.skip(6)) {
                            Some((t, r)) => Some((seq![code as char] + t, r)),
                            None => None,
                        }
                    },
                }
            }
        } else {
            match unesc(s[1]) {
                None => None,
                Some(c) => match parse_string_body(s.skip(2)) {
                    Some((t, r)) => Some((seq![c] + t, r)),
                    None => None,
                },
            }
        }
    } else if (s[0] as u32) < 0x20 {
        None
    } else {
        match parse_string_body(s.skip(1)) {
            Some((t, r)) => Some((seq![s[0]] + t, r)),
            None => None,
        }
    }
}

/// How many decimal digits the input starts with.
pub open spec fn td(s: Seq<char>) -> int
    decreases s.len(),
{
    if s.len() > 0 && is_digit(s[0]) {
        1 + td(s.skip(1))
    } else {
        0
    }
}

/// The length of the fraction part standing at `p`, if well formed.
pub open spec fn frac_len(s: Seq<char>, p: int) -> Option<int> {
    if p < s.len() && s[p] == '.' {
        let nf = td(s.skip(p + 1));
        if nf == 0 {
            None
        } else {
            Some(1 + nf)
        }
    } else {
        Some(0)
    }
}

/// The length of the exponent part standing at `p`, if well formed.
pub open spec fn exp_len(s: Seq<char>, p: int) -> Option<int> {
    if p < s.len() && (s[p] == 'e' || s[p] == 'E') {
        let ps: int = if p + 1 < s.len() && (s[p + 1] == '+' || s[p + 1] == '-') {
            1
        } else {
            0
        };
        let ne = td(s.skip(p + 1 + ps));
        if ne == 0 {
            None
        } else {
            Some(1 + ps + ne)
        }
    } else {
        Some(0)
    }
}

/// The length of the number lexeme the input starts with, if well formed.
pub open spec fn num_len(s: Seq<char>) -> Option<int> {
    let p1: int = if s.len() > 0 && s[0] == '-' {
        1
    } else {
        0
    };
    let n1 = td(s.skip(p1));
    if n1 == 0 {
        None
    } else if n1 > 1 && s[p1] == '0' {
        None
    } else {
        let p2 = p1 + n1;
        match frac_len(s, p2) {
            None => None,
            Some(fl) => match exp_len(s, p2 + fl) {
                None => None,
                Some(el) => Some(p2 + fl + el),
            },
        }
    }
}

/// Parses a number lexeme from the head of the input.
pub open spec fn parse_number(s: Seq<char>) -> Option<(JVal, Seq<char>)> {
    match num_len(s) {
        None => None,
        Some(l) => Some((JVal::Num(s.take(l)), s.skip(l))),
    }
}

/// Parses a fixed keyword standing for `v`.
pub open spec fn parse_lit(s: Seq<char>, lit: Seq<char>, v: JVal) -> Option<(JVal, Seq<char>)> {
    if s.len() >= lit.len() && s.take(lit.len() as int) == lit {
        Some((v, s.skip(lit.len() as int)))
    } else {
        None
    }
}

/// Parses one JSON value from the head of the input.
pub open spec fn parse_value(s: Seq<char>, fuel: nat) -> Option<(JVal, Seq<char>)>
    decreases fuel, 0nat,
{
    if fuel == 0 {
        None
    } else {
        let t = skip_ws(s);
        if t.len() == 0 {
            None
        } else if t[0] == 'n' {
            parse_lit(t, seq!['n', 'u', 'l', 'l'], JVal::Null)
        } else if t[0] == 't' {
            parse_lit(t, seq!['t', 'r', 'u', 'e'], JVal::Bool(true))
        } else if t[0] == 'f' {
            parse_lit(t, seq!['f', 'a', 'l', 's', 'e'], JVal::Bool(false))
        } else if t[0] == '"' {
            match parse_string_body(t.skip(1)) {
                Some((c, r)) => Some((JVal::Str(c), r)),
                None => None,
            }
        } else if t[0] == '[' {
            let u = skip_ws(t.skip(1));
            if u.len() > 0 && u[0] == ']' {
                Some((JVal::Arr(Seq::empty()), u.skip(1)))
            } else {
                parse_elems(t.skip(1), Seq::empty(), (fuel - 1) as nat)
            }
        } else if t[0] == '{' {
            let u = skip_ws(t.skip(1));
            if u.len() > 0 && u[0] == '}' {
                Some((JVal::Obj(Seq::empty()), u.skip(1)))
            } else {
                parse_members(t.skip(1), Seq::empty(), (fuel - 1) as nat)
            }
        } else {
            parse_number(t)
        }
    }
}

/// Parses the elements of a non-empty array, `acc` already read.
pub open spec fn parse_elems(s: Seq<char>, acc: Seq<JVal>, fuel: nat) -> Option<(JVal, Seq<char>)>
    decreases fuel, 1nat,
{
    if fuel == 0 {
        None
    } else {
        match parse_value(s, fuel) {
            None => None,
            Some((v, r)) => {
                let t = skip_ws(r);
                if t.len() == 0 {
                    None
                } else if t[0] == ',' {
                    parse_elems(t.skip(1), acc.push(v), (fuel - 1) as nat)
                } else if t[0] == ']' {
                    Some((JVal::Arr(acc.push(v)), t.skip(1)))
                } else {
                    None
                }
            },
        }
    }
}

/// Parses the members of a non-empty object, `acc` already read.
pub open spec fn parse_members(s: Seq<char>, acc: Seq<(Seq<char>, JVal)>, fuel: nat) -> Option<
    (JVal, Seq<char>),
>
    decreases fuel, 1nat,
{
    if fuel == 0 {
        None
    } else {
        let t = skip_ws(s);
        if t.len() == 0 || t[0] != '"' {
            None
        } else {
            match parse_string_body(t.skip(1)) {
                None => None,
                Some((k, r)) => {
                    let u = skip_ws(r);
                    if u.len() == 0 || u[0] != ':' {
                        None
                    } else {
                        match parse_value(u.skip(1), fuel) {
                            None => None,
                            Some((v, r2)) => {
                                let t2 = skip_ws(r2);
                                if t2.len() == 0 {
                                    None
                                } else if t2[0] == ',' {
                                    parse_members(t2.skip(1), acc.push((k, v)), (fuel - 1) as nat)
                                } else if t2[0] == '}' {
                                    Some((JVal::Obj(acc.push((k, v))), t2.skip(1)))
                                } else {
                                    None
                                }
                            },
                        }
                    }
                },
            }
        }
    }
}

/// Parses a whole text: one value and nothing but whitespace after it.
pub open spec fn parse_text(s: Seq<char>) -> Option<JVal> {
    match parse_value(s, (s.len() + 2) as nat) {
        Some((v, r)) => if skip_ws(r).len() == 0 {
            Some(v)
        } else {
            None
        },
        None => None,
    }
}

/// The executable outcome `r` agrees with the spec outcome `sp` over `s`.
pub open spec fn agrees(s: Seq<char>, r: Option<(Json, usize)>, sp: Option<(JVal, Seq<char>)>) -> bool {
    match (r, sp) {
        (Some((v, j)), Some((sv, sr))) => v@ == sv && j <= s.len() && sr == s.skip(j as int),
        (None, None) => true,
        _ => false,
    }
}

/// Executable mirror of [`is_ws`].
pub fn ws_char(c: char) -> (r: bool)
    ensures
        r == is_ws(c),
{
    c == ' ' || c == '\t' || c == '\n' || c == '\r'
}

/// Advances past leading whitespace.
fn skip_ws_exec(s: &[char], i: usize) -> (j: usize)
    requires
        i <= s@.len(),
    ensures
        i <= j <= s@.len(),
        skip_ws(s@.skip(i as int)) == s@.skip(j as int),
{
    let mut j = i;
    let n = s.len();
    while j < n && ws_char(s[j])
        invariant
            i <= j <= n,
            n == s@.len(),
            skip_ws(s@.skip(i as int)) == skip_ws(s@.skip(j as int)),
        decreases n - j,
    {
        proof {
            assert(s@.skip(j as int)[0] == s@[j as int]);
            assert(s@.skip(j as int).skip(1) =~= s@.skip(j as int + 1));
        }
        j = j + 1;
    }
    proof {
        if j < n {
            assert(s@.skip(j as int)[0] == s@[j as int]);
        }
    }
    j
}

/// Executable mirror of [`hex_val`].
fn hex_val_exec(c: char) -> (r: Option<u32>)
    ensures
        r == hex_val(c),
{
    if '0' <= c && c <= '9' {
        Some(c as u32 - 48)
    } else if 'a' <= c && c <= 'f' {
        Some(c as u32 - 87)
    } else if 'A' <= c && c <= 'F' {
        Some(c as u32 - 55)
    } else {
        None
    }
}

/// Reads four hexadecimal digits starting at `p`.
fn hex4_exec(s: &[char], p: usize) -> (r: Option<u32>)
    requires
        p + 4 <= s@.len(),
    ensures
        r == hex4(s@.subrange(p as int, p as int + 4)),
        r matches Some(v) ==> v <= 0xFFFF,
{
    let ghost q = s@.subrange(p as int, p as int + 4);
    proof {
        assert(q[0] == s@[p as int]);
        assert(q[1] == s@[p as int + 1]);
        assert(q[2] == s@[p as int + 2]);
        assert(q[3] == s@[p as int + 3]);
    }
    let a = hex_val_exec(s[p]);
    let b = hex_val_exec(s[p + 1]);
    let c = hex_val_exec(s[p + 2]);
    let d = hex_val_exec(s[p + 3]);
    match (a, b, c, d) {
        (Some(a), Some(b), Some(c), Some(d)) => Some(a * 4096 + b * 256 + c * 16 + d),
        _ => None,
    }
}

/// Executable mirror of [`unesc`].
fn unesc_exec(e: char) -> (r: Option<char>)
    ensures
        r == unesc(e),
{
    if e == '"' {
        Some('"')
    } else if e == '\\' {
        Some('\\')
    } else if e == '/' {
        Some('/')
    } else if e == 'b' {
        Some('\u{8}')
    } else if e == 'f' {
        Some('\u{c}')
    } else if e == 'n' {
        Some('\n')
    } else if e == 'r' {
        Some('\r')
    } else if e == 't' {
        Some('\t')
    } else {
        None
    }
}

/// Parses a string body after the opening quote.
#[verifier::rlimit(60)]
fn p_string(s: &[char], i: usize) -> (r: Option<(Vec<char>, usize)>)
    requires
        i <= s@.len(),
    ensures
        match (r, parse_string_body(s@.skip(i as int))) {
            (Some((c, j)), Some((sc, sr))) => c@ == sc && i <= j <= s@.len() && sr == s@.skip(
                j as int,
            ),
            (None, None) => true,
            _ => false,
        },
{
    let mut acc: Vec<char> = Vec::new();
    let mut j = i;
    let n = s.len();
    loop
        invariant
            i <= j <= n,
            n == s@.len(),
            parse_string_body(s@.skip(i as int)) == (match parse_string_body(s@.skip(j as int)) {
                Some((t, r)) => Some((acc@ + t, r)),
                None => None::<(Seq<char>, Seq<char>)>,
            }),
        decreases n - j,
    {
        if j == n {
            return None;
        }
        let c = s[j];
        proof {
            assert(s@.skip(j as int)[0] == c);
        }
        if c == '"' {
            proof {
                assert(s@.skip(j as int).skip(1) =~= s@.skip(j as int + 1));
                assert(acc@ + Seq::<char>::empty() =~= acc@);
            }
            return Some((acc, j + 1));
        } else if c == '\\' {
            if j + 1 == n {
                return None;
            }
            let e = s[j + 1];
            proof {
                assert(s@.skip(j as int)[1] == e);
            }
            if e == 'u' {
                if n - j < 6 {
                    return None;
                }
                proof {
                    assert(s@.skip(j as int).subrange(2, 6) =~= s@.subrange(
                        j as int + 2,
                        j as int + 6,
                    ));
                }
                match hex4_exec(s, j + 2) {
                    None => {
                        return None;
                    },
                    Some(code) => {
                        if 0xD800 <= code && code < 0xDC00 {
                            if n - j < 12 {
                                return None;
                            }
                            proof {
                                assert(s@.skip(j as int)[6] == s@[j as int + 6]);
                                assert(s@.skip(j as int)[7] == s@[j as int + 7]);
                            }
                            if s[j + 6] != '\\' || s[j + 7] != 'u' {
                                return None;
                            }
                            proof {
                                assert(s@.skip(j as int).subrange(8, 12) =~= s@.subrange(
                                    j as int + 8,
                                    j as int + 12,
                                ));
                            }
                            match hex4_exec(s, j + 8) {
                                None => {
                                    return None;
                                },
                                Some(lo) => {
                                    if !(0xDC00 <= lo && lo < 0xE000) {
                                        return None;
                                    }
                                    let cp: u32 = 0x10000 + (code - 0xD800) * 0x400 + (lo
                                        - 0xDC00);
                                    match char::from_u32(cp) {
                                        Some(d) => {
                                            proof {
                                                vstd::utf8::char_u32_cast(d, cp);
                                                assert(s@.skip(j as int).skip(12) =~= s@.skip(
                                                    j as int + 12,
                                                ));
                                                let o = parse_string_body(s@.skip(j as int + 12));
                                                match o {
                                                    Some((t, r)) => {
                                                        assert(acc@.push(d) + t =~= acc@ + (
                                                        seq![d] + t));
                                                    },
                                                    None => {},
                                                }
                                            }
                                            acc.push(d);
                                            j = j + 12;
                                        },
                                        None => {
                                            proof {
                                                assert(false);
                                            }
                                            return None;
                                        },
                                    }
                                },
                            }
                        } else if 0xDC00 <= code && code < 0xE000 {
                            return None;
                        } else {
                            match char::from_u32(code) {
                                Some(d) => {
                                    proof {
                                        vstd::utf8::char_u32_cast(d, code);
                                        assert(s@.skip(j as int).skip(6) =~= s@.skip(
                                            j as int + 6,
                                        ));
                                        let o = parse_string_body(s@.skip(j as int + 6));
                                        match o {
                                            Some((t, r)) => {
                                                assert(acc@.push(d) + t =~= acc@ + (seq![d] + t));
                                            },
                                            None => {},
                                        }
                                    }
                                    acc.push(d);
                                    j = j + 6;
                                },
                                None => {
                                    proof {
                                        assert(false);
                                    }
                                    return None;
                                },
                            }
                        }
                    },
                }
            } else {
                match unesc_exec(e) {
                    None => {
                        return None;
                    },
                    Some(d) => {
                        proof {
                            assert(s@.skip(j as int).skip(2) =~= s@.skip(j as int + 2));
                            let o = parse_string_body(s@.skip(j as int + 2));
                            match o {
                                Some((t, r)) => {
                                    assert(acc@.push(d) + t =~= acc@ + (seq![d] + t));
                                },
                                None => {},
                            }
                        }
                        acc.push(d);
                        j = j + 2;
                    },
                }
            }
        } else if (c as u32) < 0x20 {
            return None;
        } else {
            proof {
                assert(s@.skip(j as int).skip(1) =~= s@.skip(j as int + 1));
                let o = parse_string_body(s@.skip(j as int + 1));
                match o {
                    Some((t, r)) => {
                        assert(acc@.push(c) + t =~= acc@ + (seq![c] + t));
                    },
                    None => {},
                }
            }
            acc.push(c);
            j = j + 1;
        }
    }
}

/// Advances past leading decimal digits.
fn td_exec(s: &[char], p: usize) -> (q: usize)
    requires
        p <= s@.len(),
    ensures
        p <= q <= s@.len(),
        td(s@.skip(p as int)) == q - p,
{
    let mut j = p;
    let n = s.len();
    while j < n && '0' <= s[j] && s[j] <= '9'
        invariant
            p <= j <= n,
            n == s@.len(),
            td(s@.skip(p as int)) == (j - p) + td(s@.skip(j as int)),
        decreases n - j,
    {
        proof {
            assert(s@.skip(j as int)[0] == s@[j as int]);
            assert(s@.skip(j as int).skip(1) =~= s@.skip(j as int + 1));
        }
        j = j + 1;
    }
    proof {
        if j < n {
            assert(s@.skip(j as int)[0] == s@[j as int]);
        }
    }
    j
}

/// Copies `s[from..to]` into a fresh vector.
pub fn copy_range(s: &[char], from: usize, to: usize) -> (r: Vec<char>)
    requires
        from <= to <= s@.len(),
    ensures
        r@ == s@.subrange(from as int, to as int),
{
    let mut out: Vec<char> = Vec::new();
    let mut j = from;
    while j < to
        invariant
            from <= j <= to <= s@.len(),
            out@ =~= s@.subrange(from as int, j as int),
        decreases to - j,
    {
        out.push(s[j]);
        j = j + 1;
        proof {
            assert(out@ =~= s@.subrange(from as int, j as int));
        }
    }
    out
}

/// Parses a number lexeme starting at `i`.
#[verifier::rlimit(60)]
fn p_number(s: &[char], i: usize) -> (r: Option<(Json, usize)>)
    requires
        i <= s@.len(),
    ensures
        agrees(s@, r, parse_number(s@.skip(i as int))),
{
    let ghost t = s@.skip(i as int);
    let n = s.len();
    let p1: usize = if i < n && s[i] == '-' {
        i + 1
    } else {
        i
    };
    proof {
        if i < n {
            assert(t[0] == s@[i as int]);
        }
        assert(t.skip(p1 - i) =~= s@.skip(p1 as int));
    }
    let q1 = td_exec(s, p1);
    if q1 == p1 {
        return None;
    }
    proof {
        assert(t[p1 - i] == s@[p1 as int]);
    }
    if q1 - p1 > 1 && s[p1] == '0' {
        return None;
    }
    // fraction
    let p3: usize;
    proof {
        if (q1 as int) < n as int {
            assert(t[q1 - i] == s@[q1 as int]);
        }
        assert(t.len() == n - i);
    }
    if q1 < n && s[q1] == '.' {
        proof {
            assert(t.skip(q1 - i + 1) =~= s@.skip(q1 as int + 1));
        }
        let qf = td_exec(s, q1 + 1);
        if qf == q1 + 1 {
            return None;
        }
        p3 = qf;
        proof {
            assert(frac_len(t, q1 - i) == Some(p3 - q1));
        }
    } else {
        p3 = q1;
        proof {
            assert(frac_len(t, q1 - i) == Some(0int));
        }
    }
    // exponent
    let end: usize;
    proof {
        if (p3 as int) < n as int {
            assert(t[p3 - i] == s@[p3 as int]);
        }
    }
    if p3 < n && (s[p3] == 'e' || s[p3] == 'E') {
        proof {
            if p3 as int + 1 < n as int {
                assert(t[p3 - i + 1] == s@[p3 as int + 1]);
            }
        }
        let ps: usize = if p3 + 1 < n && (s[p3 + 1] == '+' || s[p3 + 1] == '-') {
            1
        } else {
            0
        };
        proof {
            assert(t.skip(p3 - i + 1 + ps) =~= s@.skip(p3 as int + 1 + ps));
        }
        let qe = td_exec(s, p3 + 1 + ps);
        if qe == p3 + 1 + ps {
            return None;
        }
        end = qe;
        proof {
            assert(exp_len(t, p3 - i) == Some(end - p3));
        }
    } else {
        end = p3;
        proof {
            assert(exp_len(t, p3 - i) == Some(0int));
        }
    }
    let lex = copy_range(s, i, end);
    proof {
        assert(num_len(t) == Some(end - i));
        assert(t.take(end - i) =~= s@.subrange(i as int, end as int));
        assert(t.skip(end - i) =~= s@.skip(end as int));
    }
    Some((Json::Num(lex), end))
}

/// Checks the keyword `lit` standing at `i`.
fn p_lit(s: &[char], i: usize, lit: &[char]) -> (r: bool)
    requires
        i <= s@.len(),
    ensures
        r == (s@.skip(i as int).len() >= lit@.len() && s@.skip(i as int).take(lit@.len() as int)
            == lit@),
{
    let n = s.len();
    let m = lit.len();
    if n - i < m {
        return false;
    }
    let mut k: usize = 0;
    while k < m
        invariant
            0 <= k <= m,
            m == lit@.len(),
            i + m <= n == s@.len(),
            forall|x: int| 0 <= x < k ==> s@[i + x] == lit@[x],
        decreases m - k,
    {
        if s[i + k] != lit[k] {
            proof {
                assert(s@.skip(i as int).take(m as int)[k as int] == s@[i + k]);
            }
            return false;
        }
        k = k + 1;
    }
    proof {
        assert(s@.skip(i as int).take(m as int) =~= lit@);
    }
    true
}

/// Parses one JSON value standing at `i`.
pub fn p_value(s: &[char], i: usize, fuel: usize) -> (r: Option<(Json, usize)>)
    requires
        i <= s@.len(),
    ensures
        agrees(s@, r, parse_value(s@.skip(i as int), fuel as nat)),
    decreases fuel, 0nat,
{
    if fuel == 0 {
        return None;
    }
    let j = skip_ws_exec(s, i);
    let ghost t = skip_ws(s@.skip(i as int));
    let n = s.len();
    if j == n {
        return None;
    }
    let c = s[j];
    proof {
        assert(t[0] == s@[j as int]);
    }
    if c == 'n' {
        let lit = ['n', 'u', 'l', 'l'];
        proof {
            assert(lit@ =~= seq!['n', 'u', 'l', 'l']);
        }
        if p_lit(s, j, &lit) {
            proof {
                assert(t.skip(4) =~= s@.skip(j as int + 4));
            }
            Some((Json::Null, j + 4))
        } else {
            None
        }
    } else if c == 't' {
        let lit = ['t', 'r', 'u', 'e'];
        proof {
            assert(lit@ =~= seq!['t', 'r', 'u', 'e']);
        }
        if p_lit(s, j, &lit) {
            proof {
                assert(t.skip(4) =~= s@.skip(j as int + 4));
            }
            Some((Json::Bool(true), j + 4))
        } else {
            None
        }
    } else if c == 'f' {
        let lit = ['f', 'a', 'l', 's', 'e'];
        proof {
            assert(lit@ =~= seq!['f', 'a', 'l', 's', 'e']);
        }
        if p_lit(s, j, &lit) {
            proof {
                assert(t.skip(5) =~= s@.skip(j as int + 5));
            }
            Some((Json::Bool(false), j + 5))
        } else {
            None
        }
    } else if c == '"' {
        proof {
            assert(t.skip(1) =~= s@.skip(j as int + 1));
        }
        match p_string(s, j + 1) {
            Some((content, k)) => Some((Json::Str(content), k)),
            None => None,
        }
    } else if c == '[' {
        proof {
            assert(t.skip(1) =~= s@.skip(j as int + 1));
        }
        let k = skip_ws_exec(s, j + 1);
        let ghost u = skip_ws(s@.skip(j as int + 1));
        if k < n {
            proof {
                assert(u[0] == s@[k as int]);
            }
        }
        if k < n && s[k] == ']' {
            proof {
                assert(u.skip(1) =~= s@.skip(k as int + 1));
                assert(jvals_of(Seq::<Json>::empty()) =~= Seq::<JVal>::empty());
            }
            Some((Json::Arr(Vec::new()), k + 1))
        } else {
            proof {
                assert(jvals_of(Seq::<Json>::empty()) =~= Seq::<JVal>::empty());
            }
            p_elems(s, j + 1, Vec::new(), fuel - 1)
        }
    } else if c == '{' {
        proof {
            assert(t.skip(1) =~= s@.skip(j as int + 1));
        }
        let k = skip_ws_exec(s, j + 1);
        let ghost u = skip_ws(s@.skip(j as int + 1));
        if k < n {
            proof {
                assert(u[0] == s@[k as int]);
            }
        }
        if k < n && s[k] == '}' {
            proof {
                assert(u.skip(1) =~= s@.skip(k as int + 1));
                assert(jmembers_of(Seq::<(Vec<char>, Json)>::empty()) =~= Seq::<
                    (Seq<char>, JVal),
                >::empty());
            }
            Some((Json::Obj(Vec::new()), k + 1))
        } else {
            proof {
                assert(jmembers_of(Seq::<(Vec<char>, Json)>::empty()) =~= Seq::<
                    (Seq<char>, JVal),
                >::empty());
            }
            p_members(s, j + 1, Vec::new(), fuel - 1)
        }
    } else {
        p_number(s, j)
    }
}

/// Parses the elements of a non-empty array, `acc` already read.
fn p_elems(s: &[char], i: usize, acc: Vec<Json>, fuel: usize) -> (r: Option<(Json, usize)>)
    requires
        i <= s@.len(),
    ensures
        agrees(s@, r, parse_elems(s@.skip(i as int), jvals_of(acc@), fuel as nat)),
    decreases fuel, 1nat,
{
    if fuel == 0 {
        return None;
    }
    let ghost acc0 = acc@;
    match p_value(s, i, fuel) {
        None => None,
        Some((v, j)) => {
            let t = skip_ws_exec(s, j);
            let ghost tsq = skip_ws(s@.skip(j as int));
            let n = s.len();
            if t == n {
                return None;
            }
            proof {
                assert(tsq[0] == s@[t as int]);
            }
            let c = s[t];
            if c == ',' {
                let mut acc2 = acc;
                proof {
                    lemma_jvals_push(acc0, v);
                    assert(tsq.skip(1) =~= s@.skip(t as int + 1));
                }
                acc2.push(v);
                p_elems(s, t + 1, acc2, fuel - 1)
            } else if c == ']' {
                let mut acc2 = acc;
                proof {
                    lemma_jvals_push(acc0, v);
                    assert(tsq.skip(1) =~= s@.skip(t as int + 1));
                }
                acc2.push(v);
                Some((Json::Arr(acc2), t + 1))
            } else {
                None
            }
        },
    }
}

/// Parses the members of a non-empty object, `acc` already read.
fn p_members(s: &[char], i: usize, acc: Vec<(Vec<char>, Json)>, fuel: usize) -> (r: Option<
    (Json, usize),
>)
    requires
        i <= s@.len(),
    ensures
        agrees(s@, r, parse_members(s@.skip(i as int), jmembers_of(acc@), fuel as nat)),
    decreases fuel, 1nat,
{
    if fuel == 0 {
        return None;
    }
    let ghost acc0 = acc@;
    let t = skip_ws_exec(s, i);
    let ghost tsq = skip_ws(s@.skip(i as int));
    let n = s.len();
    if t == n {
        return None;
    }
    proof {
        assert(tsq[0] == s@[t as int]);
    }
    if s[t] != '"' {
        return None;
    }
    proof {
        assert(tsq.skip(1) =~= s@.skip(t as int + 1));
    }
    match p_string(s, t + 1) {
        None => None,
        Some((key, j)) => {
            let u = skip_ws_exec(s, j);
            let ghost usq = skip_ws(s@.skip(j as int));
            if u == n {
                return None;
            }
            proof {
                assert(usq[0] == s@[u as int]);
            }
            if s[u] != ':' {
                return None;
            }
            proof {
                assert(usq.skip(1) =~= s@.skip(u as int + 1));
            }
            match p_value(s, u + 1, fuel) {
                None => None,
                Some((v, j2)) => {
                    let t2 = skip_ws_exec(s, j2);
                    let ghost t2sq = skip_ws(s@.skip(j2 as int));
                    if t2 == n {
                        return None;
                    }
                    proof {
                        assert(t2sq[0] == s@[t2 as int]);
                    }
                    let c = s[t2];
                    if c == ',' {
                        let ghost key0 = key@;
                        let mut acc2 = acc;
                        proof {
                            lemma_jmembers_push(acc0, key, v);
                            assert(t2sq.skip(1) =~= s@.skip(t2 as int + 1));
                        }
                        acc2.push((key, v));
                        p_members(s, t2 + 1, acc2, fuel - 1)
                    } else if c == '}' {
                        let mut acc2 = acc;
                        proof {
                            lemma_jmembers_push(acc0, key, v);
                            assert(t2sq.skip(1) =~= s@.skip(t2 as int + 1));
                        }
                        acc2.push((key, v));
                        Some((Json::Obj(acc2), t2 + 1))
                    } else {
                        None
                    }
                },
            }
        },
    }
}

/// Parses a whole text into a value, exactly as [`parse_text`] says.
pub fn parse_chars(s: &[char]) -> (r: Option<Json>)
    requires
        s@.len() + 2 <= usize::MAX,
    ensures
        match (r, parse_text(s@)) {
            (Some(v), Some(sv)) => v@ == sv,
            (None, None) => true,
            _ => false,
        },
{
    let fuel = s.len() + 2;
    proof {
        assert(s@.skip(0) =~= s@);
    }
    match p_value(s, 0, fuel) {
        None => None,
        Some((v, j)) => {
            let k = skip_ws_exec(s, j);
            if k == s.len() {
                proof {
                    assert(skip_ws(s@.skip(j as int)).len() == 0);
                }
                Some(v)
            } else {
                proof {
                    assert(skip_ws(s@.skip(j as int)).len() > 0);
                }
                None
            }
        },
    }
}

} // verus!
