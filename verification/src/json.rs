//! A small model of JSON documents.
//!
//! The decoder works on values of this type rather than on raw text; the
//! translation between text and `Json` is delegated to serde_json (see
//! `jsontext`). Numbers that fit in `i64` are kept as integers; any other
//! number keeps its printed form in `NumLit`, so that unrecognized payloads
//! survive a decode/encode round trip unchanged.

use vstd::prelude::*;

verus! {

broadcast use vstd::std_specs::vec::group_vec_axioms;

/// An in-memory JSON value. Object entries keep their order; keys are
/// expected to be unique within one object (the parser guarantees this).
#[derive(Debug, PartialEq)]
pub enum Json {
    Null,
    Bool(bool),
    Int(i64),
    NumLit(String),
    Str(String),
    Arr(Vec<Json>),
    Obj(Vec<(String, Json)>),
}

/// The mathematical shape of a `Json` value: strings become character
/// sequences, vectors become sequences.
#[verifier::ext_equal]
pub enum JsonV {
    Null,
    Bool(bool),
    Int(int),
    NumLit(Seq<char>),
    Str(Seq<char>),
    Arr(Seq<JsonV>),
    Obj(Seq<(Seq<char>, JsonV)>),
}

/// The view of one object entry.
pub open spec fn entry_view(e: (String, Json)) -> (Seq<char>, JsonV)
    decreases e,
{
    (e.0@, e.1@)
}

impl View for Json {
    type V = JsonV;

    open spec fn view(&self) -> JsonV
        decreases self,
    {
        match self {
            Json::Null => JsonV::Null,
            Json::Bool(b) => JsonV::Bool(*b),
            Json::Int(i) => JsonV::Int(*i as int),
            Json::NumLit(s) => JsonV::NumLit(s@),
            Json::Str(s) => JsonV::Str(s@),
            Json::Arr(items) => JsonV::Arr(
                Seq::new(
                    items@.len(),
                    |i: int|
                        if 0 <= i < items@.len() {
                            items@[i]@
                        } else {
                            JsonV::Null
                        },
                ),
            ),
            Json::Obj(entries) => JsonV::Obj(
                Seq::new(
                    entries@.len(),
                    |i: int|
                        if 0 <= i < entries@.len() {
                            entry_view(entries@[i])
                        } else {
                            arbitrary()
                        },
                ),
            ),
        }
    }
}

/// View of a sequence of array items.
pub open spec fn items_view(items: Seq<Json>) -> Seq<JsonV> {
    Seq::new(items.len(), |i: int| items[i]@)
}

/// View of a sequence of object entries.
pub open spec fn entries_view(entries: Seq<(String, Json)>) -> Seq<(Seq<char>, JsonV)> {
    Seq::new(entries.len(), |i: int| entry_view(entries[i]))
}

/// The view of an array value is the pointwise view of its items.
pub broadcast proof fn lemma_arr_view(items: Vec<Json>)
    ensures
        (#[trigger] Json::Arr(items)@) == JsonV::Arr(items_view(items@)),
{
    let v = Json::Arr(items)@;
    let l = v->Arr_0;
    let r = items_view(items@);
    assert(v == JsonV::Arr(l));
    assert forall|i: int| 0 <= i < r.len() implies l[i] == r[i] by {}
    assert(l =~= r);
}

/// The view of an object value is the pointwise view of its entries.
pub broadcast proof fn lemma_obj_view(entries: Vec<(String, Json)>)
    ensures
        (#[trigger] Json::Obj(entries)@) == JsonV::Obj(entries_view(entries@)),
{
    let v = Json::Obj(entries)@;
    let l = v->Obj_0;
    let r = entries_view(entries@);
    assert(v == JsonV::Obj(l));
    assert forall|i: int| 0 <= i < r.len() implies l[i] == r[i] by {}
    assert(l =~= r);
}

/// The value under the first entry with the given key, if any.
pub open spec fn obj_get_v(entries: Seq<(Seq<char>, JsonV)>, key: Seq<char>) -> Option<JsonV>
    decreases entries.len(),
{
    if entries.len() == 0 {
        None
    } else if entries[0].0 == key {
        Some(entries[0].1)
    } else {
        obj_get_v(entries.drop_first(), key)
    }
}

/// All entries whose key differs from the given one, in order.
pub open spec fn obj_remove_v(
    entries: Seq<(Seq<char>, JsonV)>,
    key: Seq<char>,
) -> Seq<(Seq<char>, JsonV)>
    decreases entries.len(),
{
    if entries.len() == 0 {
        Seq::empty()
    } else if entries[0].0 == key {
        obj_remove_v(entries.drop_first(), key)
    } else {
        seq![entries[0]] + obj_remove_v(entries.drop_first(), key)
    }
}

/// Looking up a key is unchanged by skipping a prefix in which it does not occur.
proof fn lemma_obj_get_skip(entries: Seq<(Seq<char>, JsonV)>, key: Seq<char>, i: int)
    requires
        0 <= i < entries.len(),
        entries[i].0 != key,
    ensures
        obj_get_v(entries.skip(i), key) == obj_get_v(entries.skip(i + 1), key),
{
    assert(entries.skip(i).drop_first() =~= entries.skip(i + 1));
    assert(entries.skip(i)[0] == entries[i]);
}

impl Json {
    /// The value under the first entry with the given key of an object's
    /// entry list, if any.
    pub fn obj_get<'a>(entries: &'a Vec<(String, Json)>, key: &String) -> (r: Option<&'a Json>)
        ensures
            match r {
                Some(v) => obj_get_v(entries_view(entries@), key@) == Some(v@),
                None => obj_get_v(entries_view(entries@), key@) is None,
            },
            r matches Some(v) ==> exists|k: int|
                0 <= k < entries@.len() && #[trigger] entries@[k].1 == *v,
    {
        let ghost evs = entries_view(entries@);
        proof {
            assert(evs.skip(0) =~= evs);
        }
        let n = entries.len();
        for i in 0..n
            invariant
                n == entries.len(),
                evs == entries_view(entries@),
                obj_get_v(evs, key@) == obj_get_v(evs.skip(i as int), key@),
        {
            proof {
                assert(evs[i as int] == (entries@[i as int].0@, entries@[i as int].1@));
            }
            if entries[i].0 == *key {
                assert(evs.skip(i as int)[0] == evs[i as int]);
                let r = Some(&entries[i].1);
                proof {
                    assert(entries@[i as int].1 == *r->Some_0);
                }
                return r;
            }
            proof {
                lemma_obj_get_skip(evs, key@, i as int);
            }
        }
        proof {
            assert(evs.skip(n as int) =~= Seq::<(Seq<char>, JsonV)>::empty());
        }
        None
    }
}


/// A deep copy of a JSON value, with the same view.
pub fn json_dup(j: &Json) -> (r: Json)
    ensures
        r@ == j@,
    decreases *j,
{
    match j {
        Json::Null => Json::Null,
        Json::Bool(b) => Json::Bool(*b),
        Json::Int(i) => Json::Int(*i),
        Json::NumLit(s) => Json::NumLit(s.clone()),
        Json::Str(s) => Json::Str(s.clone()),
        Json::Arr(items) => {
            proof {
                assert(*j == Json::Arr(*items));
            }
            let mut out: Vec<Json> = Vec::new();
            let n = items.len();
            let mut i: usize = 0;
            while i < n
                invariant
                    n == items.len(),
                    i <= n,
                    *j == Json::Arr(*items),
                    out@.len() == i,
                    forall|k: int| 0 <= k < i ==> #[trigger] out@[k]@ == items@[k]@,
                decreases n - i,
            {
                proof {
                    assert((*j)->Arr_0 == *items);
                    assert(decreases_to!(*j => (*j)->Arr_0));
                    assert(decreases_to!(*j => *items));
                    assert(decreases_to!(*items => items@));
                    assert(decreases_to!(items@ => items@[i as int]));
                }
                let ghost prev = out@;
                let c = json_dup(&items[i]);
                out.push(c);
                proof {
                    assert(out@[i as int]@ == items@[i as int]@);
                    assert forall|k: int| 0 <= k < i + 1 implies #[trigger] out@[k]@
                        == items@[k]@ by {
                        if k < i {
                            assert(out@[k] == prev[k]);
                            assert(prev[k]@ == items@[k]@);
                        }
                    }
                }
                i += 1;
            }
            let r = Json::Arr(out);
            proof {
                lemma_arr_view(out);
                lemma_arr_view(*items);
                assert(items_view(out@) =~= items_view(items@));
            }
            r
        },
        Json::Obj(entries) => {
            proof {
                assert(*j == Json::Obj(*entries));
            }
            let mut out: Vec<(String, Json)> = Vec::new();
            let n = entries.len();
            let mut i: usize = 0;
            while i < n
                invariant
                    n == entries.len(),
                    i <= n,
                    *j == Json::Obj(*entries),
                    out@.len() == i,
                    forall|k: int|
                        0 <= k < i ==> #[trigger] out@[k].0@ == entries@[k].0@ && out@[k].1@
                            == entries@[k].1@,
                decreases n - i,
            {
                proof {
                    assert((*j)->Obj_0 == *entries);
                    assert(decreases_to!(*j => (*j)->Obj_0));
                    assert(decreases_to!(*j => *entries));
                    assert(decreases_to!(*entries => entries@));
                    assert(decreases_to!(entries@ => entries@[i as int]));
                    assert(decreases_to!(entries@[i as int] => entries@[i as int].1));
                }
                let ghost prev = out@;
                let key = entries[i].0.clone();
                let c = json_dup(&entries[i].1);
                out.push((key, c));
                proof {
                    assert(out@[i as int].0@ == entries@[i as int].0@);
                    assert(out@[i as int].1@ == entries@[i as int].1@);
                    assert forall|k: int|
                        0 <= k < i + 1 implies #[trigger] out@[k].0@ == entries@[k].0@
                            && out@[k].1@ == entries@[k].1@ by {
                        if k < i {
                            assert(out@[k] == prev[k]);
                            assert(prev[k].0@ == entries@[k].0@);
                            assert(prev[k].1@ == entries@[k].1@);
                        }
                    }
                }
                i += 1;
            }
            let r = Json::Obj(out);
            proof {
                lemma_obj_view(out);
                lemma_obj_view(*entries);
                assert(entries_view(out@) =~= entries_view(entries@));
            }
            r
        },
    }
}


/// Removing a key distributes over concatenation.
pub proof fn lemma_obj_remove_concat(
    a: Seq<(Seq<char>, JsonV)>,
    b: Seq<(Seq<char>, JsonV)>,
    key: Seq<char>,
)
    ensures
        obj_remove_v(a + b, key) == obj_remove_v(a, key) + obj_remove_v(b, key),
    decreases a.len(),
{
    if a.len() == 0 {
        assert(a + b =~= b);
        assert(obj_remove_v(a, key) + obj_remove_v(b, key) =~= obj_remove_v(b, key));
    } else {
        assert((a + b).drop_first() =~= a.drop_first() + b);
        assert((a + b)[0] == a[0]);
        lemma_obj_remove_concat(a.drop_first(), b, key);
        if a[0].0 == key {
        } else {
            assert(seq![a[0]] + (obj_remove_v(a.drop_first(), key) + obj_remove_v(b, key))
                =~= (seq![a[0]] + obj_remove_v(a.drop_first(), key)) + obj_remove_v(b, key));
        }
    }
}

/// Removing a key that heads no entry keeps the sequence.
pub proof fn lemma_obj_remove_keeps(s: Seq<(Seq<char>, JsonV)>, key: Seq<char>)
    requires
        forall|i: int| 0 <= i < s.len() ==> (#[trigger] s[i]).0 != key,
    ensures
        obj_remove_v(s, key) == s,
    decreases s.len(),
{
    if s.len() > 0 {
        assert forall|i: int|
            0 <= i < s.drop_first().len() implies (#[trigger] s.drop_first()[i]).0 != key by {
            assert(s.drop_first()[i] == s[i + 1]);
        }
        lemma_obj_remove_keeps(s.drop_first(), key);
        assert(seq![s[0]] + s.drop_first() =~= s);
    } else {
        assert(obj_remove_v(s, key) =~= s);
    }
}

/// After removing a key, looking it up finds nothing.
pub proof fn lemma_obj_remove_get_none(s: Seq<(Seq<char>, JsonV)>, key: Seq<char>)
    ensures
        obj_get_v(obj_remove_v(s, key), key) is None,
    decreases s.len(),
{
    if s.len() == 0 {
    } else if s[0].0 == key {
        lemma_obj_remove_get_none(s.drop_first(), key);
    } else {
        lemma_obj_remove_get_none(s.drop_first(), key);
        let rem = obj_remove_v(s.drop_first(), key);
        assert((seq![s[0]] + rem).drop_first() =~= rem);
        assert((seq![s[0]] + rem)[0] == s[0]);
    }
}

/// Removing a key commutes with appending one entry.
pub proof fn lemma_obj_remove_push(
    s: Seq<(Seq<char>, JsonV)>,
    x: (Seq<char>, JsonV),
    key: Seq<char>,
)
    ensures
        obj_remove_v(s.push(x), key) == obj_remove_v(s, key) + (
            if x.0 == key {
                Seq::<(Seq<char>, JsonV)>::empty()
            } else {
                seq![x]
            }
        ),
{
    reveal_with_fuel(obj_remove_v, 3);
    assert(s.push(x) =~= s + seq![x]);
    lemma_obj_remove_concat(s, seq![x], key);
    assert(seq![x].drop_first() =~= Seq::<(Seq<char>, JsonV)>::empty());
    assert(seq![x][0] == x);
    if x.0 == key {
        assert(obj_remove_v(seq![x], key) =~= Seq::<(Seq<char>, JsonV)>::empty());
    } else {
        assert(obj_remove_v(seq![x], key) =~= seq![x]);
    }
}

} // verus!
