//! JSON serialization: a compact form for wire framing and a two-space
//! indented form for tool result text.
//!
//! The spec functions define the exact character sequence produced; the
//! executable writers are proved to emit it.

use vstd::prelude::*;
use crate::json::{JVal, Json, jval_of, jvals_of, jmembers_of, lemma_jvals_of, lemma_jmembers_of};

verus! {

/// The lowercase hexadecimal digit for a value below sixteen.
pub open spec fn hex_digit(n: u32) -> char {
    if n == 0 {
        '0'
    } else if n == 1 {
        '1'
    } else if n == 2 {
        '2'
    } else if n == 3 {
        '3'
    } else if n == 4 {
        '4'
    } else if n == 5 {
        '5'
    } else if n == 6 {
        '6'
    } else if n == 7 {
        '7'
    } else if n == 8 {
        '8'
    } else if n == 9 {
        '9'
    } else if n == 10 {
        'a'
    } else if n == 11 {
        'b'
    } else if n == 12 {
        'c'
    } else if n == 13 {
        'd'
    } else if n == 14 {
        'e'
    } else {
        'f'
    }
}

/// How one character appears inside a JSON string literal.
pub open spec fn esc_char(c: char) -> Seq<char> {
    if c == '"' {
        seq!['\\', '"']
    } else if c == '\\' {
        seq!['\\', '\\']
    } else if c == '\u{8}' {
        seq!['\\', 'b']
    } else if c == '\t' {
        seq!['\\', 't']
    } else if c == '\n' {
        seq!['\\', 'n']
    } else if c == '\u{c}' {
        seq!['\\', 'f']
    } else if c == '\r' {
        seq!['\\', 'r']
    } else if (c as u32) < 0x20 {
        seq!['\\', 'u', '0', '0', hex_digit((c as u32) / 16), hex_digit((c as u32) % 16)]
    } else {
        seq![c]
    }
}

/// The escaped body of a JSON string literal.
pub open spec fn esc_str(s: Seq<char>) -> Seq<char>
    decreases s.len(),
{
    if s.len() == 0 {
        Seq::empty()
    } else {
        esc_char(s[0]) + esc_str(s.skip(1))
    }
}

/// A whole JSON string literal, quotes included.
pub open spec fn ser_str(s: Seq<char>) -> Seq<char> {
    seq!['"'] + esc_str(s) + seq!['"']
}

/// Compact serialization of a JSON value.
pub open spec fn ser(v: JVal) -> Seq<char>
    decreases v, 0nat,
{
    match v {
        JVal::Null => seq!['n', 'u', 'l', 'l'],
        JVal::Bool(b) => if b {
            seq!['t', 'r', 'u', 'e']
        } else {
            seq!['f', 'a', 'l', 's', 'e']
        },
        JVal::Num(lex) => lex,
        JVal::Str(s) => ser_str(s),
        JVal::Arr(items) => if items.len() == 0 {
            seq!['[', ']']
        } else {
            seq!['['] + ser_items(items) + seq![']']
        },
        JVal::Obj(members) => if members.len() == 0 {
            seq!['{', '}']
        } else {
            seq!['{'] + ser_members(members) + seq!['}']
        },
    }
}

/// Comma-separated compact serialization of one or more array elements.
pub open spec fn ser_items(items: Seq<JVal>) -> Seq<char>
    decreases items, items.len(),
{
    if items.len() <= 1 {
        if items.len() == 0 {
            Seq::empty()
        } else {
            ser(items[0])
        }
    } else {
        ser(items[0]) + seq![','] + ser_items(items.skip(1))
    }
}

/// Comma-separated compact serialization of one or more object members.
pub open spec fn ser_members(members: Seq<(Seq<char>, JVal)>) -> Seq<char>
    decreases members, members.len(),
{
    if members.len() <= 1 {
        if members.len() == 0 {
            Seq::empty()
        } else {
            ser_str(members[0].0) + seq![':'] + ser(members[0].1)
        }
    } else {
        ser_str(members[0].0) + seq![':'] + ser(members[0].1) + seq![','] + ser_members(
            members.skip(1),
        )
    }
}

/// Indented serialization of a JSON value standing behind the pad `pad`,
/// which grows by two spaces per nesting level.
pub open spec fn pretty(v: JVal, pad: Seq<char>) -> Seq<char>
    decreases v, 0nat,
{
    match v {
        JVal::Arr(items) => if items.len() == 0 {
            seq!['[', ']']
        } else {
            seq!['[', '\n'] + pretty_items(items, pad + seq![' ', ' ']) + seq!['\n'] + pad
                + seq![']']
        },
        JVal::Obj(members) => if members.len() == 0 {
            seq!['{', '}']
        } else {
            seq!['{', '\n'] + pretty_members(members, pad + seq![' ', ' ']) + seq!['\n'] + pad
                + seq!['}']
        },
        _ => ser(v),
    }
}

/// Indented array elements, each on its own line.
pub open spec fn pretty_items(items: Seq<JVal>, pad: Seq<char>) -> Seq<char>
    decreases items, items.len(),
{
    if items.len() <= 1 {
        if items.len() == 0 {
            Seq::empty()
        } else {
            pad + pretty(items[0], pad)
        }
    } else {
        pad + pretty(items[0], pad) + seq![',', '\n'] + pretty_items(items.skip(1), pad)
    }
}

/// Indented object members, each on its own line.
pub open spec fn pretty_members(members: Seq<(Seq<char>, JVal)>, pad: Seq<char>) -> Seq<char>
    decreases members, members.len(),
{
    if members.len() <= 1 {
        if members.len() == 0 {
            Seq::empty()
        } else {
            pad + ser_str(members[0].0) + seq![':', ' '] + pretty(members[0].1, pad)
        }
    } else {
        pad + ser_str(members[0].0) + seq![':', ' '] + pretty(members[0].1, pad) + seq![',', '\n']
            + pretty_members(members.skip(1), pad)
    }
}

/// Appends the escaped form of one character.
fn write_esc_char(c: char, out: &mut Vec<char>)
    ensures
        final(out)@ == old(out)@ + esc_char(c),
{
    if c == '"' {
        out.push('\\');
        out.push('"');
    } else if c == '\\' {
        out.push('\\');
        out.push('\\');
    } else if c == '\u{8}' {
        out.push('\\');
        out.push('b');
    } else if c == '\t' {
        out.push('\\');
        out.push('t');
    } else if c == '\n' {
        out.push('\\');
        out.push('n');
    } else if c == '\u{c}' {
        out.push('\\');
        out.push('f');
    } else if c == '\r' {
        out.push('\\');
        out.push('r');
    } else if (c as u32) < 0x20 {
        out.push('\\');
        out.push('u');
        out.push('0');
        out.push('0');
        out.push(hex_digit_exec((c as u32) / 16));
        out.push(hex_digit_exec((c as u32) % 16));
    } else {
        out.push(c);
    }
    proof {
        assert(out@ =~= old(out)@ + esc_char(c));
    }
}

/// Executable mirror of [`hex_digit`].
pub(crate) fn hex_digit_exec(n: u32) -> (r: char)
    ensures
        r == hex_digit(n),
{
    if n == 0 {
        '0'
    } else if n == 1 {
        '1'
    } else if n == 2 {
        '2'
    } else if n == 3 {
        '3'
    } else if n == 4 {
        '4'
    } else if n == 5 {
        '5'
    } else if n == 6 {
        '6'
    } else if n == 7 {
        '7'
    } else if n == 8 {
        '8'
    } else if n == 9 {
        '9'
    } else if n == 10 {
        'a'
    } else if n == 11 {
        'b'
    } else if n == 12 {
        'c'
    } else if n == 13 {
        'd'
    } else if n == 14 {
        'e'
    } else {
        'f'
    }
}

/// `esc_str` applied to a longer prefix extends the shorter one.
proof fn lemma_esc_str_snoc(s: Seq<char>, c: char)
    ensures
        esc_str(s.push(c)) == esc_str(s) + esc_char(c),
    decreases s.len(),
{
    if s.len() == 0 {
        reveal_with_fuel(esc_str, 3);
        assert(s.push(c)[0] == c);
        assert(s.push(c).skip(1) =~= Seq::<char>::empty());
        assert(esc_str(Seq::<char>::empty()) =~= Seq::<char>::empty());
        assert(esc_str(s.push(c)) =~= esc_str(s) + esc_char(c));
    } else {
        assert(s.push(c)[0] == s[0]);
        assert(s.push(c).skip(1) =~= s.skip(1).push(c));
        lemma_esc_str_snoc(s.skip(1), c);
        assert(esc_str(s.push(c)) =~= esc_str(s) + esc_char(c));
    }
}

/// Appends a whole JSON string literal, quotes included.
fn write_str(s: &[char], out: &mut Vec<char>)
    ensures
        final(out)@ == old(out)@ + ser_str(s@),
{
    out.push('"');
    let n = s.len();
    for i in 0..n
        invariant
            n == s@.len(),
            out@ == old(out)@ + seq!['"'] + esc_str(s@.take(i as int)),
    {
        proof {
            lemma_esc_str_snoc(s@.take(i as int), s@[i as int]);
            assert(s@.take(i as int).push(s@[i as int]) =~= s@.take(i + 1));
        }
        write_esc_char(s[i], out);
    }
    out.push('"');
    proof {
        assert(s@.take(n as int) =~= s@);
        assert(out@ =~= old(out)@ + ser_str(s@));
    }
}

/// Appends every character of a slice.
fn write_all(s: &[char], out: &mut Vec<char>)
    ensures
        final(out)@ == old(out)@ + s@,
{
    let n = s.len();
    for i in 0..n
        invariant
            n == s@.len(),
            out@ == old(out)@ + s@.take(i as int),
    {
        out.push(s[i]);
        proof {
            assert(s@.take(i as int).push(s@[i as int]) =~= s@.take(i + 1));
        }
    }
    proof {
        assert(s@.take(n as int) =~= s@);
    }
}

/// Appends the compact serialization of a value.
pub fn write_val(v: &Json, out: &mut Vec<char>)
    ensures
        final(out)@ == old(out)@ + ser(v@),
    decreases v, 0nat,
{
    match v {
        Json::Null => {
            out.push('n');
            out.push('u');
            out.push('l');
            out.push('l');
            proof {
                assert(out@ =~= old(out)@ + ser(v@));
            }
        },
        Json::Bool(b) => {
            if *b {
                out.push('t');
                out.push('r');
                out.push('u');
                out.push('e');
            } else {
                out.push('f');
                out.push('a');
                out.push('l');
                out.push('s');
                out.push('e');
            }
            proof {
                assert(out@ =~= old(out)@ + ser(v@));
            }
        },
        Json::Num(lex) => {
            write_all(lex.as_slice(), out);
        },
        Json::Str(s) => {
            write_str(s.as_slice(), out);
        },
        Json::Arr(items) => {
            proof {
                lemma_jvals_of(items@);
                assert(jvals_of(items@).skip(0) =~= jvals_of(items@));
            }
            out.push('[');
            if items.len() > 0 {
                write_items(items, 0, out);
            }
            out.push(']');
            proof {
                assert(out@ =~= old(out)@ + ser(v@));
            }
        },
        Json::Obj(members) => {
            proof {
                lemma_jmembers_of(members@);
                assert(jmembers_of(members@).skip(0) =~= jmembers_of(members@));
            }
            out.push('{');
            if members.len() > 0 {
                write_members(members, 0, out);
            }
            out.push('}');
            proof {
                assert(out@ =~= old(out)@ + ser(v@));
            }
        },
    }
}

/// Appends the elements of `items` from position `i` on, comma separated.
fn write_items(items: &Vec<Json>, i: usize, out: &mut Vec<char>)
    requires
        i < items@.len(),
    ensures
        final(out)@ == old(out)@ + ser_items(jvals_of(items@).skip(i as int)),
    decreases items, items@.len() - i, 1nat,
{
    proof {
        lemma_jvals_of(items@);
        assert(jvals_of(items@).skip(i as int)[0] == jvals_of(items@)[i as int]);
    }
    let n = items.len();
    write_val(&items[i], out);
    if i + 1 < n {
        out.push(',');
        write_items(items, i + 1, out);
        proof {
            assert(jvals_of(items@).skip(i as int).skip(1) =~= jvals_of(items@).skip(i + 1));
            assert(out@ =~= old(out)@ + ser_items(jvals_of(items@).skip(i as int)));
        }
    } else {
        proof {
            assert(jvals_of(items@).skip(i as int).len() == 1);
        }
    }
}

/// Appends the members of `members` from position `i` on, comma separated.
fn write_members(members: &Vec<(Vec<char>, Json)>, i: usize, out: &mut Vec<char>)
    requires
        i < members@.len(),
    ensures
        final(out)@ == old(out)@ + ser_members(jmembers_of(members@).skip(i as int)),
    decreases members, members@.len() - i, 1nat,
{
    proof {
        lemma_jmembers_of(members@);
        assert(jmembers_of(members@).skip(i as int)[0] == jmembers_of(members@)[i as int]);
    }
    let n = members.len();
    write_str(members[i].0.as_slice(), out);
    out.push(':');
    write_val(&members[i].1, out);
    if i + 1 < n {
        out.push(',');
        write_members(members, i + 1, out);
        proof {
            assert(jmembers_of(members@).skip(i as int).skip(1) =~= jmembers_of(members@).skip(
                i + 1,
            ));
            assert(out@ =~= old(out)@ + ser_members(jmembers_of(members@).skip(i as int)));
        }
    } else {
        proof {
            assert(jmembers_of(members@).skip(i as int).len() == 1);
            assert(out@ =~= old(out)@ + ser_members(jmembers_of(members@).skip(i as int)));
        }
    }
}

/// The compact text of a value.
pub fn to_text(v: &Json) -> (r: Vec<char>)
    ensures
        r@ == ser(v@),
{
    let mut out: Vec<char> = Vec::new();
    write_val(v, &mut out);
    out
}

/// Appends the indented serialization of a value standing behind `pad`.
pub fn write_pretty(v: &Json, pad: &Vec<char>, out: &mut Vec<char>)
    ensures
        final(out)@ == old(out)@ + pretty(v@, pad@),
    decreases v, 0nat,
{
    match v {
        Json::Arr(items) => {
            proof {
                lemma_jvals_of(items@);
                assert(jvals_of(items@).skip(0) =~= jvals_of(items@));
            }
            if items.len() == 0 {
                out.push('[');
                out.push(']');
                proof {
                    assert(out@ =~= old(out)@ + pretty(v@, pad@));
                }
            } else {
                let mut deeper = pad.clone();
                deeper.push(' ');
                deeper.push(' ');
                proof {
                    assert(deeper@ =~= pad@ + seq![' ', ' ']);
                }
                out.push('[');
                out.push('\n');
                write_pretty_items(items, 0, &deeper, out);
                out.push('\n');
                write_all(pad.as_slice(), out);
                out.push(']');
                proof {
                    assert(out@ =~= old(out)@ + pretty(v@, pad@));
                }
            }
        },
        Json::Obj(members) => {
            proof {
                lemma_jmembers_of(members@);
                assert(jmembers_of(members@).skip(0) =~= jmembers_of(members@));
            }
            if members.len() == 0 {
                out.push('{');
                out.push('}');
                proof {
                    assert(out@ =~= old(out)@ + pretty(v@, pad@));
                }
            } else {
                let mut deeper = pad.clone();
                deeper.push(' ');
                deeper.push(' ');
                proof {
                    assert(deeper@ =~= pad@ + seq![' ', ' ']);
                }
                out.push('{');
                out.push('\n');
                write_pretty_members(members, 0, &deeper, out);
                out.push('\n');
                write_all(pad.as_slice(), out);
                out.push('}');
                proof {
                    assert(out@ =~= old(out)@ + pretty(v@, pad@));
                }
            }
        },
        _ => {
            write_val(v, out);
            proof {
                assert(pretty(v@, pad@) == ser(v@));
            }
        },
    }
}

/// Appends indented elements from position `i` on.
fn write_pretty_items(items: &Vec<Json>, i: usize, pad: &Vec<char>, out: &mut Vec<char>)
    requires
        i < items@.len(),
    ensures
        final(out)@ == old(out)@ + pretty_items(jvals_of(items@).skip(i as int), pad@),
    decreases items, items@.len() - i, 1nat,
{
    proof {
        lemma_jvals_of(items@);
        assert(jvals_of(items@).skip(i as int)[0] == jvals_of(items@)[i as int]);
    }
    let n = items.len();
    write_all(pad.as_slice(), out);
    write_pretty(&items[i], pad, out);
    if i + 1 < n {
        out.push(',');
        out.push('\n');
        write_pretty_items(items, i + 1, pad, out);
        proof {
            assert(jvals_of(items@).skip(i as int).skip(1) =~= jvals_of(items@).skip(i + 1));
            assert(out@ =~= old(out)@ + pretty_items(jvals_of(items@).skip(i as int), pad@));
        }
    } else {
        proof {
            assert(jvals_of(items@).skip(i as int).len() == 1);
            assert(out@ =~= old(out)@ + pretty_items(jvals_of(items@).skip(i as int), pad@));
        }
    }
}

/// Appends indented members from position `i` on.
fn write_pretty_members(
    members: &Vec<(Vec<char>, Json)>,
    i: usize,
    pad: &Vec<char>,
    out: &mut Vec<char>,
)
    requires
        i < members@.len(),
    ensures
        final(out)@ == old(out)@ + pretty_members(jmembers_of(members@).skip(i as int), pad@),
    decreases members, members@.len() - i, 1nat,
{
    proof {
        lemma_jmembers_of(members@);
        assert(jmembers_of(members@).skip(i as int)[0] == jmembers_of(members@)[i as int]);
    }
    let n = members.len();
    write_all(pad.as_slice(), out);
    write_str(members[i].0.as_slice(), out);
    out.push(':');
    out.push(' ');
    write_pretty(&members[i].1, pad, out);
    if i + 1 < n {
        out.push(',');
        out.push('\n');
        write_pretty_members(members, i + 1, pad, out);
        proof {
            assert(jmembers_of(members@).skip(i as int).skip(1) =~= jmembers_of(members@).skip(
                i + 1,
            ));
            assert(out@ =~= old(out)@ + pretty_members(
                jmembers_of(members@).skip(i as int),
                pad@,
            ));
        }
    } else {
        proof {
            assert(jmembers_of(members@).skip(i as int).len() == 1);
            assert(out@ =~= old(out)@ + pretty_members(
                jmembers_of(members@).skip(i as int),
                pad@,
            ));
        }
    }
}

/// The indented text of a value.
pub fn to_pretty_text(v: &Json) -> (r: Vec<char>)
    ensures
        r@ == pretty(v@, Seq::<char>::empty()),
{
    let pad: Vec<char> = Vec::new();
    let mut out: Vec<char> = Vec::new();
    write_pretty(v, &pad, &mut out);
    out
}

} // verus!
