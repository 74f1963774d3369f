//! The JSON value tree that the bridge passes through.
//!
//! Backend bodies are domain-owned and opaque to the bridge, so they are held
//! as an untyped tree.  Numbers keep their source lexeme: the bridge never
//! does arithmetic on them, and keeping the text means re-serialization
//! cannot change a value it merely forwards.

use vstd::prelude::*;

verus! {

/// Mathematical model of a JSON value.
#[verifier::ext_equal]
pub enum JVal {
    Null,
    Bool(bool),
    /// A number, kept as its decimal lexeme.
    Num(Seq<char>),
    Str(Seq<char>),
    Arr(Seq<JVal>),
    Obj(Seq<(Seq<char>, JVal)>),
}

/// Executable JSON value.  Its view is a [`JVal`].
#[derive(Debug, PartialEq, Eq)]
pub enum Json {
    Null,
    Bool(bool),
    /// A number, kept as its decimal lexeme.
    Num(Vec<char>),
    Str(Vec<char>),
    Arr(Vec<Json>),
    Obj(Vec<(Vec<char>, Json)>),
}

/// The model of an executable JSON value.
pub open spec fn jval_of(j: Json) -> JVal
    decreases j, 0nat,
{
    match j {
        Json::Null => JVal::Null,
        Json::Bool(b) => JVal::Bool(b),
        Json::Num(s) => JVal::Num(s@),
        Json::Str(s) => JVal::Str(s@),
        Json::Arr(items) => JVal::Arr(jvals_of(items@)),
        Json::Obj(members) => JVal::Obj(jmembers_of(members@)),
    }
}

/// The models of a sequence of executable JSON values.
pub open spec fn jvals_of(s: Seq<Json>) -> Seq<JVal>
    decreases s, s.len(),
{
    if s.len() == 0 {
        Seq::empty()
    } else {
        seq![jval_of(s[0])] + jvals_of(s.skip(1))
    }
}

/// The models of a sequence of executable object members.
pub open spec fn jmembers_of(s: Seq<(Vec<char>, Json)>) -> Seq<(Seq<char>, JVal)>
    decreases s, s.len(),
{
    if s.len() == 0 {
        Seq::empty()
    } else {
        seq![(s[0].0@, jval_of(s[0].1))] + jmembers_of(s.skip(1))
    }
}

impl View for Json {
    type V = JVal;

    open spec fn view(&self) -> JVal {
        jval_of(*self)
    }
}

/// Each model in `jvals_of` is the model of the matching element.
pub proof fn lemma_jvals_of(s: Seq<Json>)
    ensures
        jvals_of(s).len() == s.len(),
        forall|i: int| 0 <= i < s.len() ==> jvals_of(s)[i] == jval_of(#[trigger] s[i]),
    decreases s.len(),
{
    if s.len() > 0 {
        lemma_jvals_of(s.skip(1));
        assert forall|i: int| 0 <= i < s.len() implies jvals_of(s)[i] == jval_of(
            #[trigger] s[i],
        ) by {
            if i > 0 {
                assert(s.skip(1)[i - 1] == s[i]);
            }
        }
    }
}

/// Each model in `jmembers_of` is the model of the matching member.
pub proof fn lemma_jmembers_of(s: Seq<(Vec<char>, Json)>)
    ensures
        jmembers_of(s).len() == s.len(),
        forall|i: int|
            0 <= i < s.len() ==> #[trigger] jmembers_of(s)[i] == (s[i].0@, jval_of(s[i].1)),
    decreases s.len(),
{
    if s.len() > 0 {
        lemma_jmembers_of(s.skip(1));
        assert forall|i: int| 0 <= i < s.len() implies jmembers_of(s)[i] == (
        #[trigger] s[i].0@,
        jval_of(s[i].1),
        ) by {
            if i > 0 {
                assert(s.skip(1)[i - 1] == s[i]);
            }
        }
    }
}

/// The models of a pushed sequence extend the models of the original.
pub proof fn lemma_jvals_push(a: Seq<Json>, x: Json)
    ensures
        jvals_of(a.push(x)) == jvals_of(a).push(jval_of(x)),
{
    lemma_jvals_of(a.push(x));
    lemma_jvals_of(a);
    assert forall|i: int| 0 <= i < a.len() + 1 implies jvals_of(a.push(x))[i] == jvals_of(a).push(
        jval_of(x),
    )[i] by {
        if i < a.len() {
            assert(a.push(x)[i] == a[i]);
        } else {
            assert(a.push(x)[i] == x);
        }
    }
    assert(jvals_of(a.push(x)) =~= jvals_of(a).push(jval_of(x)));
}

/// The models of a pushed member sequence extend the models of the original.
pub proof fn lemma_jmembers_push(a: Seq<(Vec<char>, Json)>, k: Vec<char>, x: Json)
    ensures
        jmembers_of(a.push((k, x))) == jmembers_of(a).push((k@, jval_of(x))),
{
    lemma_jmembers_of(a.push((k, x)));
    lemma_jmembers_of(a);
    assert forall|i: int| 0 <= i < a.len() + 1 implies jmembers_of(a.push((k, x)))[i]
        == jmembers_of(a).push((k@, jval_of(x)))[i] by {
        if i < a.len() {
            assert(a.push((k, x))[i] == a[i]);
            assert(jmembers_of(a).push((k@, jval_of(x)))[i] == jmembers_of(a)[i]);
        } else {
            assert(a.push((k, x))[i] == (k, x));
            assert(jmembers_of(a).push((k@, jval_of(x)))[i] == (k@, jval_of(x)));
        }
    }
    assert(jmembers_of(a.push((k, x))) =~= jmembers_of(a).push((k@, jval_of(x))));
}

/// Looks a key up in an object's members, first match wins.
pub open spec fn spec_lookup(members: Seq<(Seq<char>, JVal)>, key: Seq<char>) -> Option<JVal>
    decreases members.len(),
{
    if members.len() == 0 {
        None
    } else if members[0].0 == key {
        Some(members[0].1)
    } else {
        spec_lookup(members.skip(1), key)
    }
}

/// The field of an object, if the value is an object that has it.
pub open spec fn spec_get(v: JVal, key: Seq<char>) -> Option<JVal> {
    match v {
        JVal::Obj(members) => spec_lookup(members, key),
        _ => None,
    }
}

/// The characters of a string value, if the value is a string.
pub open spec fn spec_as_str(v: Option<JVal>) -> Option<Seq<char>> {
    match v {
        Some(JVal::Str(s)) => Some(s),
        _ => None,
    }
}

impl Json {
    /// Member lookup on an object value; `None` on anything else.
    pub fn get(&self, key: &[char]) -> (r: Option<&Json>)
        ensures
            match r {
                Some(v) => spec_get(self@, key@) == Some(v@),
                None => spec_get(self@, key@) is None,
            },
    {
        match self {
            Json::Obj(members) => {
                proof {
                    lemma_jmembers_of(members@);
                }
                let ghost ms = jmembers_of(members@);
                proof {
                    assert(ms.skip(0) =~= ms);
                }
                let n = members.len();
                for i in 0..n
                    invariant
                        n == members.len(),
                        ms == jmembers_of(members@),
                        ms.len() == n,
                        forall|k: int|
                            0 <= k < n ==> ms[k] == (#[trigger] members@[k].0@, jval_of(
                                members@[k].1,
                            )),
                        self@ == JVal::Obj(ms),
                        spec_lookup(ms, key@) == spec_lookup(ms.skip(i as int), key@),
                {
                    proof {
                        assert(ms.skip(i as int)[0] == ms[i as int]);
                    }
                    if eq_chars(members[i].0.as_slice(), key) {
                        return Some(&members[i].1);
                    }
                    proof {
                        assert(ms.skip(i as int).skip(1) =~= ms.skip(i + 1));
                    }
                }
                proof {
                    assert(ms.skip(n as int) =~= Seq::<(Seq<char>, JVal)>::empty());
                }
                None
            },
            _ => None,
        }
    }

    /// The characters of a string value; `None` on anything else.
    pub fn as_str(&self) -> (r: Option<&Vec<char>>)
        ensures
            match r {
                Some(s) => self@ == JVal::Str(s@),
                None => !(self@ is Str),
            },
    {
        match self {
            Json::Str(s) => Some(s),
            _ => None,
        }
    }

    /// The elements of an array value; `None` on anything else.
    pub fn as_arr(&self) -> (r: Option<&Vec<Json>>)
        ensures
            match r {
                Some(items) => self@ == JVal::Arr(jvals_of(items@)),
                None => !(self@ is Arr),
            },
    {
        match self {
            Json::Arr(items) => Some(items),
            _ => None,
        }
    }

    /// True when the value is an object.
    pub fn is_object(&self) -> (r: bool)
        ensures
            r == (self@ is Obj),
    {
        match self {
            Json::Obj(_) => true,
            _ => false,
        }
    }
}

/// Copies a character slice into a fresh vector.
pub fn copy_chars(s: &[char]) -> (r: Vec<char>)
    ensures
        r@ == s@,
{
    let n = s.len();
    let mut out: Vec<char> = Vec::new();
    for i in 0..n
        invariant
            n == s@.len(),
            out@ =~= s@.take(i as int),
    {
        out.push(s[i]);
        proof {
            assert(out@ =~= s@.take(i + 1));
        }
    }
    proof {
        assert(s@.take(n as int) =~= s@);
    }
    out
}

/// Appends every character of a string slice.
pub fn append_str(out: &mut Vec<char>, s: &str)
    ensures
        final(out)@ == old(out)@ + s@,
{
    let n = s.unicode_len();
    for i in 0..n
        invariant
            n == s@.len(),
            out@ =~= old(out)@ + s@.take(i as int),
    {
        out.push(s.get_char(i));
        proof {
            assert(out@ =~= old(out)@ + s@.take(i + 1));
        }
    }
    proof {
        assert(s@.take(n as int) =~= s@);
    }
}

/// Appends every character of a slice.
pub fn append_chars(out: &mut Vec<char>, s: &[char])
    ensures
        final(out)@ == old(out)@ + s@,
{
    let n = s.len();
    for i in 0..n
        invariant
            n == s@.len(),
            out@ =~= old(out)@ + s@.take(i as int),
    {
        out.push(s[i]);
        proof {
            assert(out@ =~= old(out)@ + s@.take(i + 1));
        }
    }
    proof {
        assert(s@.take(n as int) =~= s@);
    }
}

/// A structural copy of a JSON value.
pub fn deep_copy(v: &Json) -> (r: Json)
    ensures
        r@ == v@,
    decreases v, 0nat,
{
    match v {
        Json::Null => Json::Null,
        Json::Bool(b) => Json::Bool(*b),
        Json::Num(s) => Json::Num(copy_chars(s.as_slice())),
        Json::Str(s) => Json::Str(copy_chars(s.as_slice())),
        Json::Arr(items) => {
            let mut out: Vec<Json> = Vec::new();
            if items.len() > 0 {
                copy_items_into(items, 0, &mut out);
            }
            proof {
                lemma_jvals_of(items@);
                assert(jvals_of(items@).skip(0) =~= jvals_of(items@));
                assert(jvals_of(out@) =~= jvals_of(items@));
            }
            Json::Arr(out)
        },
        Json::Obj(members) => {
            let mut out: Vec<(Vec<char>, Json)> = Vec::new();
            if members.len() > 0 {
                copy_members_into(members, 0, &mut out);
            }
            proof {
                lemma_jmembers_of(members@);
                assert(jmembers_of(members@).skip(0) =~= jmembers_of(members@));
                assert(jmembers_of(out@) =~= jmembers_of(members@));
            }
            Json::Obj(out)
        },
    }
}

/// Copies the elements of `items` from position `i` on into `out`.
fn copy_items_into(items: &Vec<Json>, i: usize, out: &mut Vec<Json>)
    requires
        i < items@.len(),
    ensures
        jvals_of(final(out)@) == jvals_of(old(out)@) + jvals_of(items@).skip(i as int),
    decreases items, items@.len() - i, 1nat,
{
    proof {
        lemma_jvals_of(items@);
        assert(jvals_of(items@).skip(i as int)[0] == jvals_of(items@)[i as int]);
    }
    let n = items.len();
    let ghost out0 = out@;
    let c = deep_copy(&items[i]);
    proof {
        lemma_jvals_push(out@, c);
    }
    out.push(c);
    if i + 1 < n {
        copy_items_into(items, i + 1, out);
        proof {
            assert(jvals_of(items@).skip(i as int).skip(1) =~= jvals_of(items@).skip(i + 1));
            assert(jvals_of(out@) =~= jvals_of(out0) + jvals_of(items@).skip(i as int));
        }
    } else {
        proof {
            assert(jvals_of(items@).skip(i as int).len() == 1);
            assert(jvals_of(out@) =~= jvals_of(out0) + jvals_of(items@).skip(i as int));
        }
    }
}

/// Copies the members of `members` from position `i` on into `out`.
fn copy_members_into(members: &Vec<(Vec<char>, Json)>, i: usize, out: &mut Vec<(Vec<char>, Json)>)
    requires
        i < members@.len(),
    ensures
        jmembers_of(final(out)@) == jmembers_of(old(out)@) + jmembers_of(members@).skip(i as int),
    decreases members, members@.len() - i, 1nat,
{
    proof {
        lemma_jmembers_of(members@);
        assert(jmembers_of(members@).skip(i as int)[0] == jmembers_of(members@)[i as int]);
    }
    let n = members.len();
    let ghost out0 = out@;
    let key = copy_chars(members[i].0.as_slice());
    let c = deep_copy(&members[i].1);
    proof {
        lemma_jmembers_push(out@, key, c);
    }
    out.push((key, c));
    if i + 1 < n {
        copy_members_into(members, i + 1, out);
        proof {
            assert(jmembers_of(members@).skip(i as int).skip(1) =~= jmembers_of(members@).skip(
                i + 1,
            ));
            assert(jmembers_of(out@) =~= jmembers_of(out0) + jmembers_of(members@).skip(i as int));
        }
    } else {
        proof {
            assert(jmembers_of(members@).skip(i as int).len() == 1);
            assert(jmembers_of(out@) =~= jmembers_of(out0) + jmembers_of(members@).skip(i as int));
        }
    }
}

/// Character-for-character equality of two character slices.
pub fn eq_chars(a: &[char], b: &[char]) -> (r: bool)
    ensures
        r == (a@ == b@),
{
    if a.len() != b.len() {
        proof {
            assert(a@.len() != b@.len());
        }
        return false;
    }
    let n = a.len();
    for i in 0..n
        invariant
            n == a.len() == b.len(),
            forall|k: int| 0 <= k < i ==> a@[k] == b@[k],
    {
        if a[i] != b[i] {
            return false;
        }
    }
    proof {
        assert(a@ =~= b@);
    }
    true
}

/// Copies the characters of a string slice into a vector.
pub fn chars_of(s: &str) -> (r: Vec<char>)
    ensures
        r@ == s@,
{
    let n = s.unicode_len();
    let mut out: Vec<char> = Vec::new();
    for i in 0..n
        invariant
            n == s@.len(),
            out@ =~= s@.take(i as int),
    {
        out.push(s.get_char(i));
        proof {
            assert(out@ =~= s@.take(i + 1));
        }
    }
    proof {
        assert(s@.take(n as int) =~= s@);
    }
    out
}

} // verus!
