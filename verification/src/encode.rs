//! The property-value encoder, and the round-trip laws that tie it to the
//! decoder: recognized payloads decode back to the same variant and payload,
//! and unrecognized payloads are emitted with their type token and remaining
//! fields unchanged.

use vstd::prelude::*;

use crate::decode::{
    dec_bool_or_undef, dec_pv, dec_str_items, dec_token_list, recognized_token, DecodeError,
};
use crate::json::{entries_view, obj_get_v, obj_remove_v, Json, JsonV};
use crate::tree::{
    strs_view, BooleanOrUndefined, ContentV, PropertyValue, PropertyValueContent, PropertyValueV,
};

verus! {

broadcast use vstd::std_specs::vec::group_vec_axioms, vstd::seq::group_seq_axioms;

/// The object entries that a payload contributes beside the `type` entry.
pub open spec fn enc_content_entries(c: ContentV) -> Seq<(Seq<char>, JsonV)> {
    match c {
        ContentV::Boolean(b) => seq![
            (
                "value"@,
                JsonV::Obj(
                    seq![
                        ("type"@, JsonV::Str(b.value_type)),
                        ("value"@, JsonV::Bool(b.value)),
                    ],
                ),
            ),
        ],
        ContentV::SimpleBoolean(b) => seq![("value"@, JsonV::Bool(b))],
        ContentV::Str(s) => seq![("value"@, JsonV::Str(s))],
        ContentV::Integer(i) => seq![("value"@, JsonV::Int(i))],
        ContentV::Token(s) => seq![("value"@, JsonV::Str(s))],
        ContentV::NodeList(l) => seq![
            ("value"@, JsonV::Arr(Seq::new(l.len(), |k: int| JsonV::Str(l[k])))),
        ],
        ContentV::TokenList(l) => seq![
            ("value"@, JsonV::Arr(Seq::new(l.len(), |k: int| JsonV::Str(l[k])))),
        ],
        ContentV::Unknown(v) => match v {
            JsonV::Obj(es) => es,
            _ => seq![("value"@, v)],
        },
    }
}

/// The JSON document a property value is printed as: its `type` token first,
/// then the payload's entries.
pub open spec fn enc_pv(pv: PropertyValueV) -> JsonV {
    JsonV::Obj(seq![("type"@, JsonV::Str(pv.value_type))] + enc_content_entries(pv.value))
}

/// Builds the JSON array of a string list.
fn encode_str_list(l: &Vec<String>) -> (r: Json)
    ensures
        r@ == JsonV::Arr(Seq::new(l@.len(), |k: int| JsonV::Str(l@[k]@))),
{
    let mut items: Vec<Json> = Vec::new();
    let n = l.len();
    let mut i: usize = 0;
    while i < n
        invariant
            n == l.len(),
            i <= n,
            items@.len() == i,
            forall|k: int| 0 <= k < i ==> #[trigger] items@[k]@ == JsonV::Str(l@[k]@),
        decreases n - i,
    {
        let ghost prev = items@;
        let c = Json::Str(l[i].clone());
        proof {
            assert(c@ == JsonV::Str(l@[i as int]@));
        }
        items.push(c);
        proof {
            assert forall|k: int| 0 <= k < i + 1 implies #[trigger] items@[k]@ == JsonV::Str(
                l@[k]@,
            ) by {
                if k < i {
                    assert(items@[k] == prev[k]);
                    assert(prev[k]@ == JsonV::Str(l@[k]@));
                }
            }
        }
        i += 1;
    }
    let r = Json::Arr(items);
    proof {
        crate::json::lemma_arr_view(r->Arr_0);
        assert(crate::json::items_view(r->Arr_0@) =~= Seq::new(
            l@.len(),
            |k: int| JsonV::Str(l@[k]@),
        ));
    }
    r
}

/// Prints a property value back into the JSON model: the `type` token plus
/// the payload under `value`, or, for an unknown payload, its own fields.
pub fn encode_property_value(pv: &PropertyValue) -> (r: Json)
    ensures
        r@ == enc_pv(pv@),
{
    let type_key: String = "type".to_owned();
    let value_key: String = "value".to_owned();
    let mut entries: Vec<(String, Json)> = Vec::new();
    entries.push((type_key, Json::Str(pv.value_type.clone())));
    match &pv.value {
        PropertyValueContent::Boolean(b) => {
            let mut inner: Vec<(String, Json)> = Vec::new();
            inner.push(("type".to_owned(), Json::Str(b.value_type.clone())));
            inner.push(("value".to_owned(), Json::Bool(b.value)));
            let iv = Json::Obj(inner);
            proof {
                crate::json::lemma_obj_view(iv->Obj_0);
                assert(entries_view(iv->Obj_0@) =~= seq![
                    ("type"@, JsonV::Str(b.value_type@)),
                    ("value"@, JsonV::Bool(b.value)),
                ]);
            }
            entries.push((value_key, iv));
        },
        PropertyValueContent::SimpleBoolean(b) => {
            entries.push((value_key, Json::Bool(*b)));
        },
        PropertyValueContent::Str(s) => {
            entries.push((value_key, Json::Str(s.clone())));
        },
        PropertyValueContent::Integer(i) => {
            entries.push((value_key, Json::Int(*i)));
        },
        PropertyValueContent::Token(s) => {
            entries.push((value_key, Json::Str(s.clone())));
        },
        PropertyValueContent::NodeList(l) => {
            entries.push((value_key, encode_str_list(l)));
        },
        PropertyValueContent::TokenList(l) => {
            entries.push((value_key, encode_str_list(l)));
        },
        PropertyValueContent::Unknown(v) => match v {
            Json::Obj(es) => {
                proof {
                    crate::json::lemma_obj_view(*es);
                    assert(entries_view(entries@) =~= seq![
                        ("type"@, JsonV::Str(pv.value_type@)),
                    ] + entries_view(es@.take(0)));
                }
                let m = es.len();
                let mut q: usize = 0;
                while q < m
                    invariant
                        m == es.len(),
                        q <= m,
                        entries_view(entries@) == seq![
                            ("type"@, JsonV::Str(pv.value_type@)),
                        ] + entries_view(es@.take(q as int)),
                    decreases m - q,
                {
                    let ghost prevv = entries@;
                    let key = es[q].0.clone();
                    let val = crate::json::json_dup(&es[q].1);
                    entries.push((key, val));
                    proof {
                        assert(entries_view(entries@) =~= entries_view(prevv).push(
                            (es@[q as int].0@, es@[q as int].1@),
                        ));
                        assert(entries_view(es@.take(q + 1)) =~= entries_view(
                            es@.take(q as int),
                        ).push((es@[q as int].0@, es@[q as int].1@)));
                        assert(entries_view(entries@) =~= seq![
                            ("type"@, JsonV::Str(pv.value_type@)),
                        ] + entries_view(es@.take(q + 1)));
                    }
                    q += 1;
                }
                proof {
                    assert(es@.take(m as int) =~= es@);
                }
            },
            _ => {
                entries.push((value_key, crate::json::json_dup(v)));
            },
        },
    }
    let r = Json::Obj(entries);
    proof {
        crate::json::lemma_obj_view(r->Obj_0);
        match &pv.value {
            PropertyValueContent::Unknown(v) => {
                match v {
                    Json::Obj(es) => {
                        crate::json::lemma_obj_view(*es);
                        assert(entries_view(r->Obj_0@) =~~= seq![
                            ("type"@, JsonV::Str(pv.value_type@)),
                        ] + entries_view(es@));
                    },
                    _ => {
                        assert(!(v@ is Obj));
                        assert(enc_content_entries(pv@.value) == seq![("value"@, v@)]);
                        assert(entries@.len() == 2);
                        assert(entries@[0].0@ == "type"@);
                        assert(entries@[0].1@ == JsonV::Str(pv.value_type@));
                        assert(entries@[1].0@ == "value"@);
                        assert(entries@[1].1@ == v@);
                        assert(entries_view(r->Obj_0@) =~~= seq![
                            ("type"@, JsonV::Str(pv.value_type@)),
                        ] + enc_content_entries(pv@.value));
                    },
                }
            },
            PropertyValueContent::NodeList(l) => {
                assert(Seq::new(l@.len(), |k: int| JsonV::Str(l@[k]@)) =~= Seq::new(
                    strs_view(l@).len(),
                    |k: int| JsonV::Str(strs_view(l@)[k]),
                ));
                assert(entries_view(r->Obj_0@) =~~= seq![
                    ("type"@, JsonV::Str(pv.value_type@)),
                ] + enc_content_entries(pv@.value));
            },
            PropertyValueContent::TokenList(l) => {
                assert(Seq::new(l@.len(), |k: int| JsonV::Str(l@[k]@)) =~= Seq::new(
                    strs_view(l@).len(),
                    |k: int| JsonV::Str(strs_view(l@)[k]),
                ));
                assert(entries_view(r->Obj_0@) =~~= seq![
                    ("type"@, JsonV::Str(pv.value_type@)),
                ] + enc_content_entries(pv@.value));
            },
            _ => {
                assert(entries_view(r->Obj_0@) =~~= seq![
                    ("type"@, JsonV::Str(pv.value_type@)),
                ] + enc_content_entries(pv@.value));
            },
        }
    }
    r
}


// ----------------------------------------------------------------------------
// Round-trip laws
// ----------------------------------------------------------------------------

/// A key that no lookup finds heads no entry.
proof fn lemma_get_none_no_key(s: Seq<(Seq<char>, JsonV)>, key: Seq<char>)
    requires
        obj_get_v(s, key) is None,
    ensures
        forall|i: int| 0 <= i < s.len() ==> (#[trigger] s[i]).0 != key,
    decreases s.len(),
{
    if s.len() > 0 {
        lemma_get_none_no_key(s.drop_first(), key);
        assert forall|i: int| 0 <= i < s.len() implies (#[trigger] s[i]).0 != key by {
            if i > 0 {
                assert(s.drop_first()[i - 1] == s[i]);
            }
        }
    }
}

/// A sequence in which nothing heads the key yields no lookup result.
proof fn lemma_no_key_get_none(s: Seq<(Seq<char>, JsonV)>, key: Seq<char>)
    requires
        forall|i: int| 0 <= i < s.len() ==> (#[trigger] s[i]).0 != key,
    ensures
        obj_get_v(s, key) is None,
    decreases s.len(),
{
    if s.len() > 0 {
        assert forall|i: int|
            0 <= i < s.drop_first().len() implies (#[trigger] s.drop_first()[i]).0 != key by {
            assert(s.drop_first()[i] == s[i + 1]);
        }
        lemma_no_key_get_none(s.drop_first(), key);
    }
}

/// A decoded property value is well formed: its payload variant matches its
/// type token, and an unknown payload is an object without a `type` entry.
pub open spec fn pv_wf(pv: PropertyValueV) -> bool {
    match pv.value {
        ContentV::Boolean(_) => pv.value_type == "booleanOrUndefined"@,
        ContentV::SimpleBoolean(_) => pv.value_type == "boolean"@,
        ContentV::Str(_) => pv.value_type == "string"@,
        ContentV::Integer(_) => pv.value_type == "integer"@,
        ContentV::Token(_) => pv.value_type == "token"@,
        ContentV::NodeList(_) => pv.value_type == "nodeList"@,
        ContentV::TokenList(_) => pv.value_type == "tokenList"@,
        ContentV::Unknown(v) => !recognized_token(pv.value_type) && v is Obj && obj_get_v(
            v->Obj_0,
            "type"@,
        ) is None,
    }
}

/// Whatever the decoder returns is well formed.
pub proof fn lemma_dec_pv_wf(j: JsonV, pv: PropertyValueV)
    requires
        dec_pv(j) == Ok::<_, DecodeError>(pv),
    ensures
        pv_wf(pv),
{
    reveal_with_fuel(obj_get_v, 5);
    reveal_with_fuel(obj_remove_v, 5);
    reveal_strlit("type");
    reveal_strlit("value");
    reveal_strlit("booleanOrUndefined");
    reveal_strlit("boolean");
    reveal_strlit("string");
    reveal_strlit("integer");
    reveal_strlit("token");
    reveal_strlit("nodeList");
    reveal_strlit("tokenList");

    match j {
        JsonV::Obj(es) => {
            let t = match obj_get_v(es, "type"@) {
                Some(JsonV::Str(s)) => s,
                _ => arbitrary(),
            };
            if !recognized_token(t) {
                crate::json::lemma_obj_remove_get_none(es, "type"@);
            }
        },
        _ => {},
    }
}

/// Every well-formed property value decodes back from its printed form to
/// itself.
pub proof fn lemma_wf_round_trip(pv: PropertyValueV)
    requires
        pv_wf(pv),
    ensures
        dec_pv(enc_pv(pv)) == Ok::<_, DecodeError>(pv),
{
    reveal_with_fuel(obj_get_v, 5);
    reveal_with_fuel(obj_remove_v, 5);
    reveal_strlit("type");
    reveal_strlit("value");
    reveal_strlit("booleanOrUndefined");
    reveal_strlit("boolean");
    reveal_strlit("string");
    reveal_strlit("integer");
    reveal_strlit("token");
    reveal_strlit("nodeList");
    reveal_strlit("tokenList");

    let t = pv.value_type;
    let head = seq![("type"@, JsonV::Str(t))];
    let content = enc_content_entries(pv.value);
    let es2 = head + content;
    assert(es2[0] == ("type"@, JsonV::Str(t)));
    assert(obj_get_v(es2, "type"@) == Some(JsonV::Str(t)));
    assert(es2.drop_first() =~= content);
    assert("type"@.len() == 4);
    assert("value"@.len() == 5);
    assert("type"@ != "value"@);
    assert("booleanOrUndefined"@.len() == 18);
    assert("boolean"@.len() == 7);
    assert("string"@.len() == 6);
    assert("integer"@.len() == 7);
    assert("token"@.len() == 5);
    assert("nodeList"@.len() == 8);
    assert("tokenList"@.len() == 9);
    assert("boolean"@[0] == 'b' && "integer"@[0] == 'i');
    assert("boolean"@ != "integer"@);
    assert(obj_get_v(es2, "value"@) == obj_get_v(content, "value"@));
    match pv.value {
        ContentV::Unknown(v) => {
            let es = v->Obj_0;
            assert(content =~= es);
            lemma_get_none_no_key(es, "type"@);
            crate::json::lemma_obj_remove_concat(head, es, "type"@);
            crate::json::lemma_obj_remove_keeps(es, "type"@);
            assert(head.drop_first() =~= Seq::<(Seq<char>, JsonV)>::empty());
            assert(obj_remove_v(head, "type"@) =~= Seq::<(Seq<char>, JsonV)>::empty());
            assert(obj_remove_v(es2, "type"@) =~= es);
            assert(dec_pv(enc_pv(pv)) == Ok::<_, DecodeError>(
                PropertyValueV { value_type: t, value: ContentV::Unknown(JsonV::Obj(es)) },
            ));
            assert(JsonV::Obj(es) == v);
        },
        ContentV::Boolean(b) => {
            let inner = seq![("type"@, JsonV::Str(b.value_type)), ("value"@, JsonV::Bool(b.value))];
            assert(content[0] == ("value"@, JsonV::Obj(inner)));
            assert(obj_get_v(content, "value"@) == Some(JsonV::Obj(inner)));
            assert(obj_get_v(inner, "type"@) == Some(JsonV::Str(b.value_type)));
            assert(inner.drop_first() =~= seq![("value"@, JsonV::Bool(b.value))]);
            assert(obj_get_v(inner, "value"@) == Some(JsonV::Bool(b.value)));
        },
        ContentV::NodeList(l) => {
            let items = Seq::new(l.len(), |k: int| JsonV::Str(l[k]));
            assert(content[0] == ("value"@, JsonV::Arr(items)));
            assert(obj_get_v(content, "value"@) == Some(JsonV::Arr(items)));
            assert(forall|k: int| 0 <= k < items.len() ==> (#[trigger] items[k]) is Str);
            assert(dec_str_items(items) == Ok::<_, DecodeError>(
                Seq::new(items.len(), |k: int| items[k]->Str_0),
            ));
            assert(Seq::new(items.len(), |k: int| items[k]->Str_0) =~= l);
        },
        ContentV::TokenList(l) => {
            let items = Seq::new(l.len(), |k: int| JsonV::Str(l[k]));
            assert(content[0] == ("value"@, JsonV::Arr(items)));
            assert(obj_get_v(content, "value"@) == Some(JsonV::Arr(items)));
            assert(forall|k: int| 0 <= k < items.len() ==> (#[trigger] items[k]) is Str);
            assert(dec_token_list(JsonV::Arr(items)) =~= l);
        },
        ContentV::SimpleBoolean(b) => {
            assert(obj_get_v(content, "value"@) == Some(JsonV::Bool(b)));
        },
        ContentV::Str(v) => {
            assert(obj_get_v(content, "value"@) == Some(JsonV::Str(v)));
        },
        ContentV::Integer(v) => {
            assert(obj_get_v(content, "value"@) == Some(JsonV::Int(v)));
        },
        ContentV::Token(v) => {
            assert(obj_get_v(content, "value"@) == Some(JsonV::Str(v)));
        },
    }
}

/// Round-trip of recognized property values: whenever the decoder accepts a
/// document as a recognized variant, printing the result and decoding it
/// again yields the same variant and payload.
pub proof fn lemma_recognized_round_trip(j: JsonV, pv: PropertyValueV)
    requires
        dec_pv(j) == Ok::<_, DecodeError>(pv),
        recognized_token(pv.value_type),
    ensures
        dec_pv(enc_pv(pv)) == Ok::<_, DecodeError>(pv),
{
    lemma_dec_pv_wf(j, pv);
    lemma_wf_round_trip(pv);
}

/// Unknown preservation: whenever the decoder keeps an unrecognized payload,
/// printing the result emits an object whose `type` equals the original
/// token and whose remaining entries equal the preserved payload, and that
/// object decodes again to the same value.
pub proof fn lemma_unknown_preserved(j: JsonV, pv: PropertyValueV)
    requires
        dec_pv(j) == Ok::<_, DecodeError>(pv),
        !recognized_token(pv.value_type),
    ensures
        enc_pv(pv) is Obj,
        obj_get_v(enc_pv(pv)->Obj_0, "type"@) == Some(JsonV::Str(pv.value_type)),
        obj_remove_v(enc_pv(pv)->Obj_0, "type"@) == pv.value->Unknown_0->Obj_0,
        dec_pv(enc_pv(pv)) == Ok::<_, DecodeError>(pv),
{
    reveal_with_fuel(obj_get_v, 5);
    reveal_with_fuel(obj_remove_v, 5);
    reveal_strlit("type");
    reveal_strlit("value");
    reveal_strlit("booleanOrUndefined");
    reveal_strlit("boolean");
    reveal_strlit("string");
    reveal_strlit("integer");
    reveal_strlit("token");
    reveal_strlit("nodeList");
    reveal_strlit("tokenList");

    lemma_dec_pv_wf(j, pv);
    lemma_wf_round_trip(pv);
    let t = pv.value_type;
    let es = pv.value->Unknown_0->Obj_0;
    let head = seq![("type"@, JsonV::Str(t))];
    let es2 = head + es;
    assert(enc_pv(pv)->Obj_0 =~= es2);
    assert(es2[0] == ("type"@, JsonV::Str(t)));
    assert(obj_get_v(es2, "type"@) == Some(JsonV::Str(t)));
    lemma_get_none_no_key(es, "type"@);
    crate::json::lemma_obj_remove_concat(head, es, "type"@);
    crate::json::lemma_obj_remove_keeps(es, "type"@);
    assert(head.drop_first() =~= Seq::<(Seq<char>, JsonV)>::empty());
    assert(obj_remove_v(head, "type"@) =~= Seq::<(Seq<char>, JsonV)>::empty());
    assert(obj_remove_v(es2, "type"@) =~= es);
}

} // verus!
